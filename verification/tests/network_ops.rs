use neural_net::activation::{Activation, Identity};
use neural_net::matrix::{Matrix, MatrixError};
use neural_net::network::{propagate_error, Network, NetworkError};
use neural_net::scalar::{Lcg64, Sampler, Scalar};

/// A floating-point scalar for the end-to-end checks.
#[derive(Clone, Copy, Debug, PartialEq)]
struct F(f64);

impl Scalar for F {
    fn plus_spec(self, other: F) -> F {
        F(self.0 + other.0)
    }
    fn minus_spec(self, other: F) -> F {
        F(self.0 - other.0)
    }
    fn times_spec(self, other: F) -> F {
        F(self.0 * other.0)
    }
    fn zero_spec() -> F {
        F(0.0)
    }
    fn one_spec() -> F {
        F(1.0)
    }
    fn plus(self, other: F) -> F {
        F(self.0 + other.0)
    }
    fn minus(self, other: F) -> F {
        F(self.0 - other.0)
    }
    fn times(self, other: F) -> F {
        F(self.0 * other.0)
    }
    fn zero() -> F {
        F(0.0)
    }
    fn one() -> F {
        F(1.0)
    }
}

/// The logistic sigmoid with its derivative on activated values.
struct Sigmoid;

impl Activation<F> for Sigmoid {
    fn apply_spec(&self, x: F) -> F {
        F(1.0 / (1.0 + (-x.0).exp()))
    }
    fn derivative_spec(&self, y: F) -> F {
        F(y.0 * (1.0 - y.0))
    }
    fn apply(&self, x: F) -> F {
        F(1.0 / (1.0 + (-x.0).exp()))
    }
    fn derivative(&self, y: F) -> F {
        F(y.0 * (1.0 - y.0))
    }
}

/// Uniform samples in [0, 1) from the crate's deterministic generator.
struct SeededUniform {
    gen: Lcg64,
}

impl Sampler<F> for SeededUniform {
    fn sample(&mut self) -> F {
        F((self.gen.step() >> 11) as f64 / 9007199254740992.0)
    }
}

fn xor_data() -> (Vec<Vec<F>>, Vec<Vec<F>>) {
    let inputs = vec![
        vec![F(0.0), F(0.0)],
        vec![F(0.0), F(1.0)],
        vec![F(1.0), F(0.0)],
        vec![F(1.0), F(1.0)],
    ];
    let targets = vec![vec![F(0.0)], vec![F(1.0)], vec![F(1.0)], vec![F(0.0)]];
    (inputs, targets)
}

#[test]
fn new_network_shapes() {
    let mut s = Lcg64::new(3);
    let net = Network::new(vec![2, 3, 3, 1], 5u64, Identity, &mut s);
    assert_eq!(net.weights.len(), 3);
    assert_eq!(net.biases.len(), 3);
    let expected = [(3, 2), (3, 3), (1, 3)];
    for i in 0..3 {
        assert_eq!((net.weights[i].rows, net.weights[i].cols), expected[i]);
        assert_eq!((net.biases[i].rows, net.biases[i].cols), (expected[i].0, 1));
    }
    assert_eq!(net.data.len(), 0);
}

#[test]
fn feed_forward_output_width() {
    // Topology [2,3,3,1]: a 2-element input gives exactly 1 output, every
    // time, whatever the random initialization.
    for seed in [1u64, 2, 3, 4, 5] {
        let mut s = SeededUniform { gen: Lcg64::new(seed) };
        let mut net = Network::new(vec![2, 3, 3, 1], F(0.1), Sigmoid, &mut s);
        for _ in 0..3 {
            let out = net.feed_forward(vec![F(0.25), F(0.75)]).unwrap();
            assert_eq!(out.len(), 1);
        }
    }
}

#[test]
fn feed_forward_wrong_input_size_no_mutation() {
    let mut s = SeededUniform { gen: Lcg64::new(7) };
    let mut net = Network::new(vec![2, 3, 3, 1], F(0.1), Sigmoid, &mut s);
    let weights_before: Vec<Matrix<F>> = net.weights.clone();
    let biases_before: Vec<Matrix<F>> = net.biases.clone();
    let r = net.feed_forward(vec![F(0.1), F(0.2), F(0.3)]);
    assert_eq!(r.unwrap_err(), NetworkError::InvalidFeedForwardInputSize);
    assert_eq!(net.weights, weights_before);
    assert_eq!(net.biases, biases_before);
    assert_eq!(net.data.len(), 0);
}

#[test]
fn feed_forward_identity_exact() {
    // With the identity activation and hand-picked weights the forward
    // pass is plain affine arithmetic: w*x + b.
    let net_weights = vec![Matrix::<u64>::from(vec![vec![2, 0], vec![0, 3]])];
    let net_biases = vec![Matrix::<u64>::from(vec![vec![10], vec![20]])];
    let mut net = Network {
        layers: vec![2, 2],
        weights: net_weights,
        biases: net_biases,
        data: Vec::new(),
        activation: Identity,
        learning_rate: 1u64,
    };
    let out = net.feed_forward(vec![5, 7]).unwrap();
    assert_eq!(out, vec![20, 41]);
    assert_eq!(net.data.len(), 2);
    assert_eq!(net.data[0].data, vec![vec![5], vec![7]]);
    assert_eq!(net.data[1].data, vec![vec![20], vec![41]]);
}

#[test]
fn back_propagate_identity_exact() {
    // One transition, identity activation, learning rate 1:
    // errors = 20 - 13 = 7, gradient = 1, so g1 = 7,
    // w += 7 * 5 = 35 and b += 7.
    let mut net = Network {
        layers: vec![1, 1],
        weights: vec![Matrix::<u64>::from(vec![vec![2]])],
        biases: vec![Matrix::<u64>::from(vec![vec![3]])],
        data: Vec::new(),
        activation: Identity,
        learning_rate: 1u64,
    };
    let out = net.feed_forward(vec![5]).unwrap();
    assert_eq!(out, vec![13]);
    net.back_propagate(out, vec![20]).unwrap();
    assert_eq!(net.weights[0].data, vec![vec![37]]);
    assert_eq!(net.biases[0].data, vec![vec![10]]);
}

#[test]
fn back_propagate_wrong_target_width() {
    let mut s = Lcg64::new(11);
    let mut net = Network::new(vec![2, 3, 3, 1], 1u64, Identity, &mut s);
    let out = net.feed_forward(vec![1, 2]).unwrap();
    let weights_before = net.weights.clone();
    let r = net.back_propagate(out, vec![1, 2]);
    assert_eq!(r.unwrap_err(), NetworkError::InvalidBackProgragationParameters);
    assert_eq!(net.weights, weights_before);
}

#[test]
fn back_propagate_outputs_length_mismatch() {
    let mut s = Lcg64::new(11);
    let mut net = Network::new(vec![2, 2], 1u64, Identity, &mut s);
    net.feed_forward(vec![1, 2]).unwrap();
    let weights_before = net.weights.clone();
    let r = net.back_propagate(vec![1], vec![1, 2]);
    assert_eq!(
        r.unwrap_err(),
        NetworkError::InternalComputationError(MatrixError::DimensionMismatch)
    );
    assert_eq!(net.weights, weights_before);
}

#[test]
fn propagate_error_masked_fallback() {
    // A deliberately shape-incompatible transposed-weight/error multiply:
    // the masking fallback substitutes a 2x2 zero matrix and goes on.
    let w = Matrix::<u64>::from(vec![vec![1, 2, 3], vec![4, 5, 6]]);
    let e = Matrix::<u64>::from(vec![vec![1], vec![2], vec![3]]);
    let r = propagate_error(&w, &e);
    assert_eq!(r.rows, 2);
    assert_eq!(r.cols, 2);
    assert_eq!(r.data, vec![vec![0, 0], vec![0, 0]]);
}

#[test]
fn propagate_error_compatible_product() {
    let w = Matrix::<u64>::from(vec![vec![1, 2, 3], vec![4, 5, 6]]);
    let e = Matrix::<u64>::from(vec![vec![10], vec![20]]);
    let r = propagate_error(&w, &e);
    assert_eq!(r.data, vec![vec![90], vec![120], vec![150]]);
}

#[test]
fn network_error_from_matrix_error() {
    let e = NetworkError::from(MatrixError::DimensionMismatch);
    assert_eq!(e, NetworkError::InternalComputationError(MatrixError::DimensionMismatch));
}

#[test]
fn train_mismatched_lengths() {
    let mut s = SeededUniform { gen: Lcg64::new(5) };
    let mut net = Network::new(vec![2, 3, 3, 1], F(0.1), Sigmoid, &mut s);
    let weights_before = net.weights.clone();
    let inputs = vec![vec![F(0.0), F(0.0)], vec![F(1.0), F(1.0)]];
    let targets = vec![vec![F(0.0)]];
    let r = net.train(inputs, targets, 10);
    assert_eq!(r.unwrap_err(), NetworkError::InvalidBackProgragationParameters);
    assert_eq!(net.weights, weights_before);
}

#[test]
fn train_wrong_target_width() {
    let mut s = SeededUniform { gen: Lcg64::new(5) };
    let mut net = Network::new(vec![2, 3, 3, 1], F(0.1), Sigmoid, &mut s);
    let weights_before = net.weights.clone();
    let inputs = vec![vec![F(0.0), F(0.0)], vec![F(1.0), F(1.0)]];
    let targets = vec![vec![F(0.0)], vec![F(1.0), F(0.0)]];
    let r = net.train(inputs, targets, 10);
    assert_eq!(r.unwrap_err(), NetworkError::InvalidBackProgragationParameters);
    assert_eq!(net.weights, weights_before);
}

#[test]
fn train_wrong_input_width() {
    let mut s = SeededUniform { gen: Lcg64::new(5) };
    let mut net = Network::new(vec![2, 3, 3, 1], F(0.1), Sigmoid, &mut s);
    let weights_before = net.weights.clone();
    let inputs = vec![vec![F(0.0), F(0.0)], vec![F(1.0)]];
    let targets = vec![vec![F(0.0)], vec![F(1.0)]];
    let r = net.train(inputs, targets, 10);
    assert_eq!(r.unwrap_err(), NetworkError::InvalidFeedForwardInputSize);
    assert_eq!(net.weights, weights_before);
}

#[test]
fn train_converges_xor() {
    // End-to-end regression: the canonical 4-pattern binary dataset with
    // topology [2,3,3,1], deterministic initialization and a learning rate
    // of 0.1 drives every output within 0.1 of its target.
    let mut s = SeededUniform { gen: Lcg64::new(1) };
    let mut net = Network::new(vec![2, 3, 3, 1], F(0.1), Sigmoid, &mut s);
    let (inputs, targets) = xor_data();
    net.train(inputs.clone(), targets.clone(), u16::MAX).unwrap();
    for j in 0..4 {
        let out = net.feed_forward(inputs[j].clone()).unwrap();
        assert_eq!(out.len(), 1);
        assert!((out[0].0 - targets[j][0].0).abs() < 0.1);
    }
}

#[test]
fn train_example_single_update() {
    let mut net = Network {
        layers: vec![1, 1],
        weights: vec![Matrix::<u64>::from(vec![vec![2]])],
        biases: vec![Matrix::<u64>::from(vec![vec![3]])],
        data: Vec::new(),
        activation: Identity,
        learning_rate: 1u64,
    };
    net.train_example(vec![5], vec![20]).unwrap();
    assert_eq!(net.weights[0].data, vec![vec![37]]);
    assert_eq!(net.biases[0].data, vec![vec![10]]);
}
