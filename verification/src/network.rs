//! Topology-driven forward inference and gradient-descent weight update.

use vstd::prelude::*;
use crate::activation::Activation;
use crate::matrix::{
    Matrix, MatrixError, ew_plus, ew_minus, ew_times, ew_apply, grid_transpose, grid_product,
    lemma_grid_eq,
};
use crate::scalar::{Scalar, Sampler};

verus! {

/// Failure of a network operation: an input vector whose width does not
/// match the first layer, a target vector whose width does not match the
/// last layer, or a matrix-level error met during the computation.
#[derive(Clone, Copy, Debug, PartialEq, Eq, Structural)]
pub enum NetworkError {
    InvalidFeedForwardInputSize,
    InvalidBackProgragationParameters,
    InternalComputationError(MatrixError),
}

impl From<MatrixError> for NetworkError {
    fn from(value: MatrixError) -> Self {
        NetworkError::InternalComputationError(value)
    }
}

impl vstd::std_specs::convert::FromSpecImpl<MatrixError> for NetworkError {
    open spec fn obeys_from_spec() -> bool {
        true
    }

    open spec fn from_spec(v: MatrixError) -> NetworkError {
        NetworkError::InternalComputationError(v)
    }
}

/// A flat vector seen as a single-column matrix grid.
pub open spec fn col_of<T>(s: Seq<T>) -> Seq<Seq<T>> {
    Seq::new(s.len(), |i: int| Seq::new(1, |j: int| s[i]))
}

/// The grids of a sequence of matrices, in order.
pub open spec fn views_of<T>(ms: Seq<Matrix<T>>) -> Seq<Seq<Seq<T>>> {
    ms.map_values(|m: Matrix<T>| m@)
}

/// Replacing one matrix of a sequence replaces exactly its grid.
pub proof fn lemma_views_of_update<T>(ms: Seq<Matrix<T>>, i: int, m: Matrix<T>)
    requires
        0 <= i < ms.len(),
    ensures
        views_of(ms.update(i, m)) == views_of(ms).update(i, m@),
{
    assert(views_of(ms.update(i, m)) =~= views_of(ms).update(i, m@));
}

/// Scaling by the learning rate, elementwise.
pub open spec fn scale_by<T: Scalar>(lr: T) -> spec_fn(T) -> T {
    |v: T| v.times_spec(lr)
}

/// The activation pair's derivative, elementwise.
pub open spec fn deriv_of<T: Scalar, A: Activation<T>>(act: A) -> spec_fn(T) -> T {
    |v: T| act.derivative_spec(v)
}

/// One layer transition of the forward pass: the weight product, the
/// elementwise bias addition, then the elementwise activation.
pub open spec fn layer_step<T: Scalar, A: Activation<T>>(
    w: Seq<Seq<T>>,
    b: Seq<Seq<T>>,
    x: Seq<Seq<T>>,
    act: A,
) -> Seq<Seq<T>> {
    ew_apply(ew_plus(grid_product(w, x), b), |v: T| act.apply_spec(v))
}

/// The values of a single-column grid, flattened in row order.
pub open spec fn col_vals<T>(g: Seq<Seq<T>>) -> Seq<T> {
    Seq::new(g.len(), |i: int| g[i][0])
}

/// The whole cache of a forward pass over the first `k` layer transitions:
/// the input column, then each transition's activation column in order.
pub open spec fn forward_cache<T: Scalar, A: Activation<T>>(
    ws: Seq<Seq<Seq<T>>>,
    bs: Seq<Seq<Seq<T>>>,
    act: A,
    x0: Seq<Seq<T>>,
    k: nat,
) -> Seq<Seq<Seq<T>>>
    decreases k,
{
    if k == 0 {
        seq![x0]
    } else {
        let prev = forward_cache(ws, bs, act, x0, (k - 1) as nat);
        prev.push(layer_step(ws[k - 1], bs[k - 1], prev[k - 1], act))
    }
}

/// A cache whose first column is the input and whose every later column is
/// the layer step of the one before it is exactly `forward_cache`.
pub proof fn lemma_forward_cache_from_chain<T: Scalar, A: Activation<T>>(
    d: Seq<Seq<Seq<T>>>,
    ws: Seq<Seq<Seq<T>>>,
    bs: Seq<Seq<Seq<T>>>,
    act: A,
    x0: Seq<Seq<T>>,
    k: int,
)
    requires
        0 <= k < d.len(),
        d[0] == x0,
        forall|i: int| 0 <= i < d.len() - 1 ==> #[trigger] d[i + 1] == layer_step(
            ws[i],
            bs[i],
            d[i],
            act,
        ),
    ensures
        d.take(k + 1) == forward_cache(ws, bs, act, x0, k as nat),
    decreases k,
{
    if k == 0 {
        assert(d.take(1) =~= seq![x0]);
    } else {
        lemma_forward_cache_from_chain(d, ws, bs, act, x0, k - 1);
        assert(d[(k - 1) + 1] == layer_step(ws[k - 1], bs[k - 1], d[k - 1], act));
        assert(d.take(k + 1) =~= d.take(k).push(d[k]));
        assert(d.take(k)[k - 1] == d[k - 1]);
    }
}

/// The moving state of the backward pass: the weight and bias grids, the
/// error column being propagated backward, and the current gradient column.
pub struct BpState<T> {
    pub ws: Seq<Seq<Seq<T>>>,
    pub bs: Seq<Seq<Seq<T>>>,
    pub errors: Seq<Seq<T>>,
    pub gradients: Seq<Seq<T>>,
}

/// One whole backward sweep, from layer transition `i` down to transition
/// 0. Each step scales the gradient-error product by the learning rate,
/// adds the outer product with the cached layer input to the weights, adds
/// the scaled gradient to the biases, propagates the error through the
/// transposed weight matrix — deliberately the just-updated one, not its
/// pre-update value — and takes the derivative of the cached column as the
/// next gradient.
pub open spec fn bp_rec<T: Scalar, A: Activation<T>>(
    st: BpState<T>,
    cache: Seq<Seq<Seq<T>>>,
    lr: T,
    act: A,
    i: int,
) -> BpState<T>
    decreases i + 1,
{
    if i < 0 {
        st
    } else {
        let g1 = ew_apply(ew_times(st.gradients, st.errors), scale_by(lr));
        let w1 = ew_plus(st.ws[i], grid_product(g1, grid_transpose(cache[i])));
        bp_rec(
            (BpState {
                ws: st.ws.update(i, w1),
                bs: st.bs.update(i, ew_plus(st.bs[i], g1)),
                errors: grid_product(grid_transpose(w1), st.errors),
                gradients: ew_apply(cache[i], deriv_of(act)),
            }),
            cache,
            lr,
            act,
            i - 1,
        )
    }
}

/// The grids of a sequence of vectors, each seen as a flat sequence.
pub open spec fn seqs_of<T>(vs: Seq<Vec<T>>) -> Seq<Seq<T>> {
    vs.map_values(|v: Vec<T>| v@)
}

/// One online update on paper: the forward cache from `input`, the output
/// column's values, and one backward sweep against `target`. The result's
/// `ws` and `bs` are the updated weight and bias grids.
pub open spec fn step_example<T: Scalar, A: Activation<T>>(
    ws: Seq<Seq<Seq<T>>>,
    bs: Seq<Seq<Seq<T>>>,
    act: A,
    lr: T,
    nlayers: int,
    input: Seq<T>,
    target: Seq<T>,
) -> BpState<T> {
    let cache = forward_cache(ws, bs, act, col_of(input), (nlayers - 1) as nat);
    let outs = col_vals(cache[nlayers - 1]);
    let st0 = (BpState {
        ws,
        bs,
        errors: ew_minus(col_of(target), col_of(outs)),
        gradients: ew_apply(col_of(outs), deriv_of(act)),
    });
    bp_rec(st0, cache, lr, act, nlayers - 2)
}

/// The first `j` examples of one epoch, updated in order.
pub open spec fn run_examples<T: Scalar, A: Activation<T>>(
    ws: Seq<Seq<Seq<T>>>,
    bs: Seq<Seq<Seq<T>>>,
    act: A,
    lr: T,
    nlayers: int,
    ins: Seq<Seq<T>>,
    tgs: Seq<Seq<T>>,
    j: int,
) -> (Seq<Seq<Seq<T>>>, Seq<Seq<Seq<T>>>)
    decreases j,
{
    if j <= 0 {
        (ws, bs)
    } else {
        let p = run_examples(ws, bs, act, lr, nlayers, ins, tgs, j - 1);
        let s = step_example(p.0, p.1, act, lr, nlayers, ins[j - 1], tgs[j - 1]);
        (s.ws, s.bs)
    }
}

/// `e` whole epochs, each a pass over every example in order.
pub open spec fn run_epochs<T: Scalar, A: Activation<T>>(
    ws: Seq<Seq<Seq<T>>>,
    bs: Seq<Seq<Seq<T>>>,
    act: A,
    lr: T,
    nlayers: int,
    ins: Seq<Seq<T>>,
    tgs: Seq<Seq<T>>,
    e: int,
) -> (Seq<Seq<Seq<T>>>, Seq<Seq<Seq<T>>>)
    decreases e,
{
    if e <= 0 {
        (ws, bs)
    } else {
        let p = run_epochs(ws, bs, act, lr, nlayers, ins, tgs, e - 1);
        run_examples(p.0, p.1, act, lr, nlayers, ins, tgs, ins.len() as int)
    }
}

/// The backward error-propagation step: the transposed weight matrix times
/// the error column. On a shape mismatch this step does not signal: it
/// masks the failure and substitutes a degenerate 2x2 zero matrix, a
/// compatibility behaviour kept on purpose, and the contract states both
/// arms exactly. Inside `back_propagate` the shapes are proved compatible,
/// so the fallback arm is never taken there.
pub fn propagate_error<T: Scalar>(weight: &Matrix<T>, errors: &Matrix<T>) -> (r: Matrix<T>)
    requires
        weight.wf(),
        errors.wf(),
    ensures
        r.wf(),
        weight.rows == errors.rows ==> {
            &&& r.rows == weight.cols
            &&& r.cols == errors.cols
            &&& r@ == grid_product(grid_transpose(weight@), errors@)
        },
        weight.rows != errors.rows ==> {
            &&& r.rows == 2
            &&& r.cols == 2
            &&& forall|i: int, j: int| 0 <= i < 2 && 0 <= j < 2 ==> r@[i][j] == T::zero_spec()
        },
{
    let flipped = weight.transpose();
    match flipped.mul(errors) {
        Ok(m) => m,
        Err(_) => Matrix::zeros(2, 2),
    }
}

/// A multilayer feed-forward network: a layer-size topology, one weight
/// matrix and one bias column per layer transition, an activation pair, a
/// learning rate, and the transient cache of per-layer activation columns
/// from the most recent forward pass.
pub struct Network<T, A> {
    pub layers: Vec<usize>,
    pub weights: Vec<Matrix<T>>,
    pub biases: Vec<Matrix<T>>,
    pub data: Vec<Matrix<T>>,
    pub activation: A,
    pub learning_rate: T,
}

impl<T: Scalar, A: Activation<T>> Network<T, A> {
    /// The structural invariant: at least two positive layer widths, and
    /// one (layers[i+1] x layers[i]) weight matrix with its
    /// (layers[i+1] x 1) bias column per transition.
    pub open spec fn wf(&self) -> bool {
        &&& self.layers@.len() >= 2
        &&& forall|i: int| 0 <= i < self.layers@.len() ==> (#[trigger] self.layers@[i]) >= 1
        &&& self.weights@.len() == self.layers@.len() - 1
        &&& self.biases@.len() == self.layers@.len() - 1
        &&& forall|i: int|
            0 <= i < self.weights@.len() ==> {
                &&& (#[trigger] self.weights@[i]).wf()
                &&& self.weights@[i].rows == self.layers@[i + 1]
                &&& self.weights@[i].cols == self.layers@[i]
            }
        &&& forall|i: int|
            0 <= i < self.biases@.len() ==> {
                &&& (#[trigger] self.biases@[i]).wf()
                &&& self.biases@[i].rows == self.layers@[i + 1]
                &&& self.biases@[i].cols == 1
            }
    }

    /// The activation cache is valid: one well-formed column per layer,
    /// with the layer's width. It holds exactly of the state left behind by
    /// the most recent successful forward pass; before the first one, the
    /// cache is empty and has no meaning.
    pub open spec fn cache_valid(&self) -> bool {
        &&& self.data@.len() == self.layers@.len()
        &&& forall|i: int|
            0 <= i < self.data@.len() ==> {
                &&& (#[trigger] self.data@[i]).wf()
                &&& self.data@[i].rows == self.layers@[i]
                &&& self.data@[i].cols == 1
            }
    }

    /// Builds a network over the given topology: for each adjacent pair of
    /// layer widths, a randomly initialized weight matrix and bias column,
    /// drawn from the caller's sampler. The cache starts empty.
    pub fn new<S: Sampler<T>>(
        layers: Vec<usize>,
        learning_rate: T,
        activation: A,
        sampler: &mut S,
    ) -> (r: Self)
        requires
            layers@.len() >= 2,
            forall|i: int| 0 <= i < layers@.len() ==> (#[trigger] layers@[i]) >= 1,
        ensures
            r.wf(),
            r.layers == layers,
            r.learning_rate == learning_rate,
            r.activation == activation,
            r.data@.len() == 0,
    {
        let mut weights: Vec<Matrix<T>> = Vec::new();
        let mut biases: Vec<Matrix<T>> = Vec::new();
        let n = layers.len();
        for i in 0..n - 1
            invariant
                n == layers@.len(),
                n >= 2,
                forall|k: int| 0 <= k < layers@.len() ==> (#[trigger] layers@[k]) >= 1,
                weights@.len() == i,
                biases@.len() == i,
                forall|k: int|
                    0 <= k < i ==> {
                        &&& (#[trigger] weights@[k]).wf()
                        &&& weights@[k].rows == layers@[k + 1]
                        &&& weights@[k].cols == layers@[k]
                    },
                forall|k: int|
                    0 <= k < i ==> {
                        &&& (#[trigger] biases@[k]).wf()
                        &&& biases@[k].rows == layers@[k + 1]
                        &&& biases@[k].cols == 1
                    },
        {
            weights.push(Matrix::random(layers[i + 1], layers[i], sampler));
            biases.push(Matrix::random(layers[i + 1], 1, sampler));
        }
        Network { layers, weights, biases, data: Vec::new(), activation, learning_rate }
    }

    /// The forward pass. Rejects an input vector whose width differs from
    /// the first layer, touching nothing; otherwise it rebuilds the cache —
    /// the input column, then each layer's activation column in order — and
    /// returns the last column's values, one per output neuron. Weights and
    /// biases are never changed. With a well-formed network no internal
    /// shape mismatch can arise, so the size check is the only error.
    pub fn feed_forward(&mut self, inputs: Vec<T>) -> (r: Result<Vec<T>, NetworkError>)
        requires
            old(self).wf(),
        ensures
            final(self).wf(),
            final(self).layers == old(self).layers,
            final(self).weights == old(self).weights,
            final(self).biases == old(self).biases,
            final(self).activation == old(self).activation,
            final(self).learning_rate == old(self).learning_rate,
            r is Ok <==> inputs@.len() == old(self).layers@[0],
            r is Err ==> *final(self) == *old(self),
            r matches Err(e) ==> e == NetworkError::InvalidFeedForwardInputSize,
            r is Ok ==> final(self).cache_valid(),
            r is Ok ==> final(self).data@[0]@ == col_of(inputs@),
            r is Ok ==> forall|i: int|
                0 <= i < old(self).layers@.len() - 1 ==> (#[trigger] final(self).data@[i + 1])@
                    == layer_step(
                    old(self).weights@[i]@,
                    old(self).biases@[i]@,
                    final(self).data@[i]@,
                    old(self).activation,
                ),
            r matches Ok(out) ==> {
                &&& out@.len() == old(self).layers@[old(self).layers@.len() - 1]
                &&& forall|k: int|
                    0 <= k < out@.len() ==> #[trigger] out@[k] == final(self).data@[old(
                        self,
                    ).layers@.len() - 1]@[k][0]
            },
    {
        if inputs.len() != self.layers[0] {
            return Err(NetworkError::InvalidFeedForwardInputSize);
        }
        let n = self.layers.len();
        let input_row = Matrix::from(vec![inputs]);
        let mut current = input_row.transpose();
        proof {
            lemma_grid_eq(current@, col_of(input_row@[0]));
        }
        self.data = Vec::new();
        self.data.push(current.duplicate());
        for x in 0..n - 1
            invariant
                self.wf(),
                self.layers == old(self).layers,
                self.weights == old(self).weights,
                self.biases == old(self).biases,
                self.activation == old(self).activation,
                self.learning_rate == old(self).learning_rate,
                n == self.layers@.len(),
                current.wf(),
                current.rows == self.layers@[x as int],
                current.cols == 1,
                self.data@.len() == x + 1,
                forall|i: int|
                    0 <= i <= x ==> {
                        &&& (#[trigger] self.data@[i]).wf()
                        &&& self.data@[i].rows == self.layers@[i]
                        &&& self.data@[i].cols == 1
                    },
                self.data@[0]@ == col_of(input_row@[0]),
                self.data@[x as int]@ == current@,
                forall|i: int|
                    0 <= i < x ==> (#[trigger] self.data@[i + 1])@ == layer_step(
                        self.weights@[i]@,
                        self.biases@[i]@,
                        self.data@[i]@,
                        self.activation,
                    ),
        {
            let product = match self.weights[x].mul(&current) {
                Ok(m) => m,
                Err(e) => {
                    return Err(NetworkError::from(e));
                },
            };
            let biased = match product.add(&self.biases[x]) {
                Ok(m) => m,
                Err(e) => {
                    return Err(NetworkError::from(e));
                },
            };
            let act = &self.activation;
            let f = |v: T| -> (r: T)
                ensures
                    r == act.apply_spec(v),
                { act.apply(v) };
            let mapped = match biased.map(f) {
                Ok(m) => m,
                Err(e) => {
                    return Err(NetworkError::from(e));
                },
            };
            proof {
                let ls = layer_step(
                    self.weights@[x as int]@,
                    self.biases@[x as int]@,
                    current@,
                    self.activation,
                );
                assert forall|i: int, j: int|
                    0 <= i < mapped@.len() && 0 <= j < mapped@[i].len() implies mapped@[i][j]
                    == ls[i][j] by {
                    assert(call_ensures(f, (biased@[i][j],), mapped@[i][j]));
                }
                lemma_grid_eq(mapped@, ls);
            }
            self.data.push(mapped.duplicate());
            current = mapped;
        }
        let mut out: Vec<T> = Vec::new();
        for k in 0..current.rows
            invariant
                current.wf(),
                current.cols == 1,
                out@.len() == k,
                forall|i: int| 0 <= i < k ==> #[trigger] out@[i] == current@[i][0],
        {
            out.push(current.data[k][0]);
        }
        Ok(out)
    }

    /// The backward pass. Rejects a target vector whose width differs from
    /// the last layer, touching nothing; an output vector whose width
    /// differs from the targets' surfaces the underlying shape mismatch,
    /// also touching nothing. Otherwise it mutates weights and biases in
    /// place: exactly one `bp_rec` sweep from the last layer transition
    /// down to the first, seeded with the targets-minus-outputs error
    /// column and the derivative of the output column. The cache must be
    /// the one left by the immediately preceding forward pass; it is read,
    /// never changed. With a valid cache every interior shape agrees, so
    /// the masked fallback of `propagate_error` is never taken here.
    pub fn back_propagate(&mut self, outputs: Vec<T>, targets: Vec<T>) -> (r: Result<
        (),
        NetworkError,
    >)
        requires
            old(self).wf(),
            old(self).cache_valid(),
        ensures
            final(self).wf(),
            final(self).cache_valid(),
            final(self).layers == old(self).layers,
            final(self).data == old(self).data,
            final(self).activation == old(self).activation,
            final(self).learning_rate == old(self).learning_rate,
            r is Ok <==> (targets@.len() == old(self).layers@[old(self).layers@.len() - 1]
                && outputs@.len() == targets@.len()),
            targets@.len() != old(self).layers@[old(self).layers@.len() - 1] ==> (r matches Err(e)
                && e == NetworkError::InvalidBackProgragationParameters
                && *final(self) == *old(self)),
            (targets@.len() == old(self).layers@[old(self).layers@.len() - 1] && outputs@.len()
                != targets@.len()) ==> (r matches Err(e) && e
                == NetworkError::InternalComputationError(MatrixError::DimensionMismatch)
                && *final(self) == *old(self)),
            r is Ok ==> ({
                let st0 = (BpState {
                    ws: views_of(old(self).weights@),
                    bs: views_of(old(self).biases@),
                    errors: ew_minus(col_of(targets@), col_of(outputs@)),
                    gradients: ew_apply(col_of(outputs@), deriv_of(old(self).activation)),
                });
                let stf = bp_rec(
                    st0,
                    views_of(old(self).data@),
                    old(self).learning_rate,
                    old(self).activation,
                    old(self).layers@.len() - 2,
                );
                views_of(final(self).weights@) == stf.ws && views_of(final(self).biases@) == stf.bs
            }),
    {
        let last = self.layers.len() - 1;
        if targets.len() != self.layers[last] {
            return Err(NetworkError::InvalidBackProgragationParameters);
        }
        if outputs.len() != targets.len() {
            return Err(NetworkError::InternalComputationError(MatrixError::DimensionMismatch));
        }
        let targets_row = Matrix::from(vec![targets]);
        let targets_col = targets_row.transpose();
        let outputs_row = Matrix::from(vec![outputs]);
        let outputs_col = outputs_row.transpose();
        proof {
            lemma_grid_eq(targets_col@, col_of(targets@));
            lemma_grid_eq(outputs_col@, col_of(outputs@));
        }
        let mut errors = match targets_col.sub(&outputs_col) {
            Ok(m) => m,
            Err(e) => {
                return Err(NetworkError::from(e));
            },
        };
        let act0 = &self.activation;
        let fd0 = |v: T| -> (r: T)
            ensures
                r == act0.derivative_spec(v),
            { act0.derivative(v) };
        let mut gradients = match outputs_col.map(fd0) {
            Ok(m) => m,
            Err(e) => {
                return Err(NetworkError::from(e));
            },
        };
        proof {
            assert forall|a: int, b: int|
                0 <= a < gradients@.len() && 0 <= b < gradients@[a].len() implies gradients@[a][b]
                == ew_apply(col_of(outputs@), deriv_of(self.activation))[a][b] by {
                assert(call_ensures(fd0, (outputs_col@[a][b],), gradients@[a][b]));
            }
            lemma_grid_eq(gradients@, ew_apply(col_of(outputs@), deriv_of(self.activation)));
        }
        let ghost cache_g = views_of(self.data@);
        let ghost lr_g = self.learning_rate;
        let ghost act_g = self.activation;
        let ghost st0 = (BpState {
            ws: views_of(self.weights@),
            bs: views_of(self.biases@),
            errors: errors@,
            gradients: gradients@,
        });
        let mut i = self.layers.len() - 1;
        while i >= 1
            invariant
                self.wf(),
                self.cache_valid(),
                self.layers == old(self).layers,
                self.data == old(self).data,
                self.activation == old(self).activation,
                self.learning_rate == old(self).learning_rate,
                i <= self.layers@.len() - 1,
                errors.wf(),
                errors.rows == self.layers@[i as int],
                errors.cols == 1,
                gradients.wf(),
                gradients.rows == self.layers@[i as int],
                gradients.cols == 1,
                cache_g == views_of(self.data@),
                lr_g == self.learning_rate,
                act_g == self.activation,
                bp_rec(
                    (BpState {
                        ws: views_of(self.weights@),
                        bs: views_of(self.biases@),
                        errors: errors@,
                        gradients: gradients@,
                    }),
                    cache_g,
                    lr_g,
                    act_g,
                    i - 1,
                ) == bp_rec(st0, cache_g, lr_g, act_g, self.layers@.len() - 2),
            decreases i,
        {
            let idx = i - 1;
            let ghost wvec_in = self.weights@;
            let ghost bvec_in = self.biases@;
            let ghost ws_in = views_of(self.weights@);
            let ghost bs_in = views_of(self.biases@);
            let ghost e_in = errors@;
            let ghost g_in = gradients@;
            let gtimes = match gradients.dot_product(&errors) {
                Ok(m) => m,
                Err(e) => {
                    return Err(NetworkError::from(e));
                },
            };
            let lr = self.learning_rate;
            let fs = |v: T| -> (r: T)
                ensures
                    r == v.times_spec(lr),
                { v.times(lr) };
            let g1 = match gtimes.map(fs) {
                Ok(m) => m,
                Err(e) => {
                    return Err(NetworkError::from(e));
                },
            };
            proof {
                assert forall|a: int, b: int|
                    0 <= a < g1@.len() && 0 <= b < g1@[a].len() implies g1@[a][b] == ew_apply(
                    ew_times(g_in, e_in),
                    scale_by(lr_g),
                )[a][b] by {
                    assert(call_ensures(fs, (gtimes@[a][b],), g1@[a][b]));
                }
                lemma_grid_eq(g1@, ew_apply(ew_times(g_in, e_in), scale_by(lr_g)));
            }
            let cached_t = self.data[idx].transpose();
            let outer = match g1.mul(&cached_t) {
                Ok(m) => m,
                Err(e) => {
                    return Err(NetworkError::from(e));
                },
            };
            let new_w = match self.weights[idx].add(&outer) {
                Ok(m) => m,
                Err(e) => {
                    return Err(NetworkError::from(e));
                },
            };
            let ghost new_w_view = new_w@;
            self.weights.set(idx, new_w);
            let new_b = match self.biases[idx].add(&g1) {
                Ok(m) => m,
                Err(e) => {
                    return Err(NetworkError::from(e));
                },
            };
            let ghost new_b_view = new_b@;
            self.biases.set(idx, new_b);
            let next_errors = propagate_error(&self.weights[idx], &errors);
            let act1 = &self.activation;
            let fd = |v: T| -> (r: T)
                ensures
                    r == act1.derivative_spec(v),
                { act1.derivative(v) };
            let next_gradients = match self.data[idx].map(fd) {
                Ok(m) => m,
                Err(e) => {
                    return Err(NetworkError::from(e));
                },
            };
            proof {
                assert forall|a: int, b: int|
                    0 <= a < next_gradients@.len() && 0 <= b < next_gradients@[a].len() implies
                    next_gradients@[a][b] == ew_apply(cache_g[idx as int], deriv_of(act_g))[a][b] by {
                    assert(call_ensures(fd, (self.data@[idx as int]@[a][b],), next_gradients@[a][b]));
                    assert(cache_g[idx as int] == self.data@[idx as int]@);
                }
                lemma_grid_eq(next_gradients@, ew_apply(cache_g[idx as int], deriv_of(act_g)));
            }
            errors = next_errors;
            gradients = next_gradients;
            proof {
                lemma_views_of_update(wvec_in, idx as int, self.weights@[idx as int]);
                lemma_views_of_update(bvec_in, idx as int, self.biases@[idx as int]);
                let st_in = (BpState { ws: ws_in, bs: bs_in, errors: e_in, gradients: g_in });
                let st_out = (BpState {
                    ws: views_of(self.weights@),
                    bs: views_of(self.biases@),
                    errors: errors@,
                    gradients: gradients@,
                });
                let g1s = ew_apply(ew_times(g_in, e_in), scale_by(lr_g));
                let w1s = ew_plus(ws_in[idx as int], grid_product(g1s, grid_transpose(cache_g[idx as int])));
                assert(ws_in[idx as int] == wvec_in[idx as int]@);
                assert(bs_in[idx as int] == bvec_in[idx as int]@);
                assert(cache_g[idx as int] == self.data@[idx as int]@);
                assert(new_w_view == w1s);
                assert(st_out.ws == st_in.ws.update(idx as int, w1s));
                assert(st_out.bs == st_in.bs.update(idx as int, ew_plus(bs_in[idx as int], g1s)));
                assert(st_out.errors == grid_product(grid_transpose(w1s), st_in.errors));
                assert(st_out.gradients == ew_apply(cache_g[idx as int], deriv_of(act_g)));
                assert(bp_rec(st_in, cache_g, lr_g, act_g, idx as int) == bp_rec(
                    st_out,
                    cache_g,
                    lr_g,
                    act_g,
                    idx as int - 1,
                ));
            }
            i = idx;
        }
        proof {
            let st_end = (BpState {
                ws: views_of(self.weights@),
                bs: views_of(self.biases@),
                errors: errors@,
                gradients: gradients@,
            });
            assert(bp_rec(st_end, cache_g, lr_g, act_g, -1) == st_end);
        }
        Ok(())
    }

    /// One online update: a forward pass on `input` followed immediately by
    /// a backward pass against `target`, the pair `train` repeats. On
    /// success the new weights and biases are exactly one `bp_rec` sweep
    /// seeded from the freshly computed `forward_cache`; on a rejected
    /// input or target width, weights and biases are untouched.
    pub fn train_example(&mut self, input: Vec<T>, target: Vec<T>) -> (r: Result<(), NetworkError>)
        requires
            old(self).wf(),
        ensures
            final(self).wf(),
            final(self).layers == old(self).layers,
            final(self).activation == old(self).activation,
            final(self).learning_rate == old(self).learning_rate,
            r is Ok <==> (input@.len() == old(self).layers@[0] && target@.len() == old(
                self,
            ).layers@[old(self).layers@.len() - 1]),
            input@.len() != old(self).layers@[0] ==> (r matches Err(e) && e
                == NetworkError::InvalidFeedForwardInputSize && *final(self) == *old(self)),
            (input@.len() == old(self).layers@[0] && target@.len() != old(self).layers@[old(
                self,
            ).layers@.len() - 1]) ==> (r matches Err(e) && e
                == NetworkError::InvalidBackProgragationParameters && final(self).weights == old(
                self,
            ).weights && final(self).biases == old(self).biases),
            r is Ok ==> ({
                let ws0 = views_of(old(self).weights@);
                let bs0 = views_of(old(self).biases@);
                let cache = forward_cache(
                    ws0,
                    bs0,
                    old(self).activation,
                    col_of(input@),
                    (old(self).layers@.len() - 1) as nat,
                );
                let outs = col_vals(cache[old(self).layers@.len() - 1]);
                let st0 = (BpState {
                    ws: ws0,
                    bs: bs0,
                    errors: ew_minus(col_of(target@), col_of(outs)),
                    gradients: ew_apply(col_of(outs), deriv_of(old(self).activation)),
                });
                let stf = bp_rec(
                    st0,
                    cache,
                    old(self).learning_rate,
                    old(self).activation,
                    old(self).layers@.len() - 2,
                );
                &&& views_of(final(self).data@) == cache
                &&& final(self).cache_valid()
                &&& views_of(final(self).weights@) == stf.ws
                &&& views_of(final(self).biases@) == stf.bs
            }),
    {
        let ghost ws0 = views_of(self.weights@);
        let ghost bs0 = views_of(self.biases@);
        let ghost target_view = target@;
        let outputs = match self.feed_forward(input) {
            Ok(o) => o,
            Err(e) => {
                return Err(e);
            },
        };
        proof {
            lemma_forward_cache_from_chain(
                views_of(self.data@),
                ws0,
                bs0,
                self.activation,
                self.data@[0]@,
                self.layers@.len() - 1,
            );
            assert(views_of(self.data@).take(self.layers@.len() as int) =~= views_of(self.data@));
            assert(outputs@ =~= col_vals(views_of(self.data@)[self.layers@.len() - 1]));
        }
        match self.back_propagate(outputs, target) {
            Ok(u) => Ok(u),
            Err(e) => Err(e),
        }
    }

    /// Full-batch-per-sample training: for each epoch and each example in
    /// order, one forward pass followed by one backward pass. Every width
    /// is validated up front, so a rejected call mutates nothing: unequal
    /// input/target counts, or a target of the wrong width, surface
    /// `InvalidBackProgragationParameters` before any example is
    /// processed, and an input of the wrong width likewise surfaces
    /// `InvalidFeedForwardInputSize`; the first flawed example decides.
    pub fn train(&mut self, inputs: Vec<Vec<T>>, targets: Vec<Vec<T>>, epochs: u16) -> (r: Result<
        (),
        NetworkError,
    >)
        requires
            old(self).wf(),
        ensures
            final(self).wf(),
            final(self).layers == old(self).layers,
            final(self).activation == old(self).activation,
            final(self).learning_rate == old(self).learning_rate,
            r is Ok <==> (inputs@.len() == targets@.len() && (forall|j: int|
                0 <= j < inputs@.len() ==> (#[trigger] inputs@[j])@.len() == old(self).layers@[0])
                && (forall|j: int|
                0 <= j < targets@.len() ==> (#[trigger] targets@[j])@.len() == old(self).layers@[old(
                    self,
                ).layers@.len() - 1])),
            r is Err ==> *final(self) == *old(self),
            inputs@.len() != targets@.len() ==> (r matches Err(e) && e
                == NetworkError::InvalidBackProgragationParameters),
            r matches Err(e) ==> (inputs@.len() != targets@.len() || exists|j: int|
                0 <= j < inputs@.len() && ((#[trigger] inputs@[j])@.len() != old(self).layers@[0]
                    || targets@[j]@.len() != old(self).layers@[old(self).layers@.len() - 1]) && (
                forall|k: int|
                    0 <= k < j ==> (#[trigger] inputs@[k])@.len() == old(self).layers@[0]
                        && targets@[k]@.len() == old(self).layers@[old(self).layers@.len() - 1])
                    && e == (if inputs@[j]@.len() != old(self).layers@[0] {
                    NetworkError::InvalidFeedForwardInputSize
                } else {
                    NetworkError::InvalidBackProgragationParameters
                })),
            (r is Ok && epochs >= 1 && inputs@.len() >= 1) ==> final(self).cache_valid(),
            r is Ok ==> ({
                let p = run_epochs(
                    views_of(old(self).weights@),
                    views_of(old(self).biases@),
                    old(self).activation,
                    old(self).learning_rate,
                    old(self).layers@.len() as int,
                    seqs_of(inputs@),
                    seqs_of(targets@),
                    epochs as int,
                );
                views_of(final(self).weights@) == p.0 && views_of(final(self).biases@) == p.1
            }),
    {
        if inputs.len() != targets.len() {
            return Err(NetworkError::InvalidBackProgragationParameters);
        }
        let last = self.layers.len() - 1;
        let count = inputs.len();
        let mut j: usize = 0;
        while j < count
            invariant
                self == old(self),
                self.wf(),
                last == self.layers@.len() - 1,
                count == inputs@.len(),
                inputs@.len() == targets@.len(),
                j <= count,
                forall|k: int|
                    0 <= k < j ==> (#[trigger] inputs@[k])@.len() == self.layers@[0],
                forall|k: int|
                    0 <= k < j ==> (#[trigger] targets@[k])@.len() == self.layers@[last as int],
            decreases count - j,
        {
            if inputs[j].len() != self.layers[0] {
                return Err(NetworkError::InvalidFeedForwardInputSize);
            }
            if targets[j].len() != self.layers[last] {
                return Err(NetworkError::InvalidBackProgragationParameters);
            }
            proof {
                assert(inputs@[j as int]@.len() == self.layers@[0]);
                assert(targets@[j as int]@.len() == self.layers@[last as int]);
            }
            j += 1;
        }
        let ghost ws_init = views_of(self.weights@);
        let ghost bs_init = views_of(self.biases@);
        let ghost act_g = self.activation;
        let ghost lr_g = self.learning_rate;
        let ghost nl = self.layers@.len() as int;
        let ghost ins_g = seqs_of(inputs@);
        let ghost tgs_g = seqs_of(targets@);
        let mut e: u16 = 0;
        while e < epochs
            invariant
                self.wf(),
                self.layers == old(self).layers,
                self.activation == old(self).activation,
                self.learning_rate == old(self).learning_rate,
                last == self.layers@.len() - 1,
                count == inputs@.len(),
                inputs@.len() == targets@.len(),
                forall|k: int|
                    0 <= k < inputs@.len() ==> (#[trigger] inputs@[k])@.len() == self.layers@[0],
                forall|k: int|
                    0 <= k < targets@.len() ==> (#[trigger] targets@[k])@.len()
                        == self.layers@[last as int],
                (e >= 1 && inputs@.len() >= 1) ==> self.cache_valid(),
                e <= epochs,
                ws_init == views_of(old(self).weights@),
                bs_init == views_of(old(self).biases@),
                act_g == self.activation,
                lr_g == self.learning_rate,
                nl == self.layers@.len() as int,
                ins_g == seqs_of(inputs@),
                tgs_g == seqs_of(targets@),
                (views_of(self.weights@), views_of(self.biases@)) == run_epochs(
                    ws_init,
                    bs_init,
                    act_g,
                    lr_g,
                    nl,
                    ins_g,
                    tgs_g,
                    e as int,
                ),
            decreases epochs - e,
        {
            let ghost ws_epoch = views_of(self.weights@);
            let ghost bs_epoch = views_of(self.biases@);
            let mut jj: usize = 0;
            while jj < count
                invariant
                    self.wf(),
                    self.layers == old(self).layers,
                    self.activation == old(self).activation,
                    self.learning_rate == old(self).learning_rate,
                    last == self.layers@.len() - 1,
                    count == inputs@.len(),
                    inputs@.len() == targets@.len(),
                    jj <= count,
                    forall|k: int|
                        0 <= k < inputs@.len() ==> (#[trigger] inputs@[k])@.len()
                            == self.layers@[0],
                    forall|k: int|
                        0 <= k < targets@.len() ==> (#[trigger] targets@[k])@.len()
                            == self.layers@[last as int],
                    jj >= 1 ==> self.cache_valid(),
                    act_g == self.activation,
                    lr_g == self.learning_rate,
                    nl == self.layers@.len() as int,
                    ins_g == seqs_of(inputs@),
                    tgs_g == seqs_of(targets@),
                    (views_of(self.weights@), views_of(self.biases@)) == run_examples(
                        ws_epoch,
                        bs_epoch,
                        act_g,
                        lr_g,
                        nl,
                        ins_g,
                        tgs_g,
                        jj as int,
                    ),
                decreases count - jj,
            {
                let ghost ws_cur = views_of(self.weights@);
                let ghost bs_cur = views_of(self.biases@);
                let input = copy_vec(&inputs[jj]);
                let target = copy_vec(&targets[jj]);
                match self.train_example(input, target) {
                    Ok(u) => u,
                    Err(err) => {
                        return Err(err);
                    },
                };
                proof {
                    assert(ins_g[jj as int] == inputs@[jj as int]@);
                    assert(tgs_g[jj as int] == targets@[jj as int]@);
                    let s = step_example(
                        ws_cur,
                        bs_cur,
                        act_g,
                        lr_g,
                        nl,
                        ins_g[jj as int],
                        tgs_g[jj as int],
                    );
                    assert(views_of(self.weights@) == s.ws);
                    assert(views_of(self.biases@) == s.bs);
                    assert((views_of(self.weights@), views_of(self.biases@)) == run_examples(
                        ws_epoch,
                        bs_epoch,
                        act_g,
                        lr_g,
                        nl,
                        ins_g,
                        tgs_g,
                        jj as int + 1,
                    ));
                }
                jj += 1;
            }
            proof {
                assert((views_of(self.weights@), views_of(self.biases@)) == run_epochs(
                    ws_init,
                    bs_init,
                    act_g,
                    lr_g,
                    nl,
                    ins_g,
                    tgs_g,
                    e as int + 1,
                ));
            }
            e += 1;
        }
        Ok(())
    }
}

/// A fresh vector with the same scalar values.
fn copy_vec<T: Scalar>(v: &Vec<T>) -> (r: Vec<T>)
    ensures
        r@ == v@,
{
    let mut r: Vec<T> = Vec::new();
    for i in 0..v.len()
        invariant
            r@.len() == i,
            forall|k: int| 0 <= k < i ==> #[trigger] r@[k] == v@[k],
    {
        r.push(v[i]);
    }
    proof {
        assert(r@ =~= v@);
    }
    r
}

} // verus!
