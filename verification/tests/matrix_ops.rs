use neural_net::matrix::{Matrix, MatrixError};
use neural_net::scalar::Lcg64;

#[test]
fn from_infers_shape() {
    let m = Matrix::<u64>::from(vec![vec![1, 2, 3], vec![4, 5, 6]]);
    assert_eq!(m.rows, 2);
    assert_eq!(m.cols, 3);
    assert_eq!(m.data, vec![vec![1, 2, 3], vec![4, 5, 6]]);
}

#[test]
fn zeros_all_zero() {
    let m = Matrix::<u64>::zeros(2, 3);
    assert_eq!(m.rows, 2);
    assert_eq!(m.cols, 3);
    assert_eq!(m.data, vec![vec![0, 0, 0], vec![0, 0, 0]]);
}

#[test]
fn add_elementwise_exact() {
    let a = Matrix::<u64>::from(vec![vec![1, 2], vec![3, 4]]);
    let b = Matrix::<u64>::from(vec![vec![10, 20], vec![30, 40]]);
    let s = a.add(&b).unwrap();
    assert_eq!(s.data, vec![vec![11, 22], vec![33, 44]]);
}

#[test]
fn add_dimension_mismatch() {
    let a = Matrix::<u64>::from(vec![vec![1, 2]]);
    let b = Matrix::<u64>::from(vec![vec![1], vec![2]]);
    assert_eq!(a.add(&b).unwrap_err(), MatrixError::DimensionMismatch);
}

#[test]
fn sub_elementwise_exact() {
    let a = Matrix::<u64>::from(vec![vec![10, 20], vec![30, 40]]);
    let b = Matrix::<u64>::from(vec![vec![1, 2], vec![3, 4]]);
    let d = a.sub(&b).unwrap();
    assert_eq!(d.data, vec![vec![9, 18], vec![27, 36]]);
}

#[test]
fn sub_dimension_mismatch() {
    let a = Matrix::<u64>::from(vec![vec![1, 2]]);
    let b = Matrix::<u64>::from(vec![vec![1, 2, 3]]);
    assert_eq!(a.sub(&b).unwrap_err(), MatrixError::DimensionMismatch);
}

#[test]
fn add_sub_roundtrip_exact() {
    // Wrapping u64 arithmetic: add(sub(a, b), b) == a exactly, even where
    // the subtraction wraps below zero.
    let a = Matrix::<u64>::from(vec![vec![5, 0], vec![u64::MAX, 7]]);
    let b = Matrix::<u64>::from(vec![vec![9, 1], vec![3, 7]]);
    let round = a.sub(&b).unwrap().add(&b).unwrap();
    assert_eq!(round.data, a.data);
}

#[test]
fn mul_known_product() {
    let a = Matrix::<u64>::from(vec![vec![1, 2], vec![3, 4]]);
    let b = Matrix::<u64>::from(vec![vec![5, 6], vec![7, 8]]);
    let p = a.mul(&b).unwrap();
    assert_eq!(p.data, vec![vec![19, 22], vec![43, 50]]);
}

#[test]
fn mul_dimension_rule() {
    // (2x3) by (3x2) yields (2x2); (2x3) by (2x2) is a mismatch.
    let a = Matrix::<u64>::from(vec![vec![1, 2, 3], vec![4, 5, 6]]);
    let b = Matrix::<u64>::from(vec![vec![1, 0], vec![0, 1], vec![1, 1]]);
    let p = a.mul(&b).unwrap();
    assert_eq!(p.rows, 2);
    assert_eq!(p.cols, 2);
    let c = Matrix::<u64>::from(vec![vec![1, 0], vec![0, 1]]);
    assert_eq!(a.mul(&c).unwrap_err(), MatrixError::DimensionMismatch);
}

#[test]
fn dot_product_elementwise() {
    let a = Matrix::<u64>::from(vec![vec![2, 3], vec![4, 5]]);
    let b = Matrix::<u64>::from(vec![vec![10, 10], vec![2, 2]]);
    let h = a.dot_product(&b).unwrap();
    assert_eq!(h.data, vec![vec![20, 30], vec![8, 10]]);
}

#[test]
fn dot_product_dimension_mismatch() {
    let a = Matrix::<u64>::from(vec![vec![2, 3]]);
    let b = Matrix::<u64>::from(vec![vec![10], vec![2]]);
    assert_eq!(a.dot_product(&b).unwrap_err(), MatrixError::DimensionMismatch);
}

#[test]
fn map_preserves_shape() {
    let a = Matrix::<u64>::from(vec![vec![1, 2, 3], vec![4, 5, 6]]);
    let m = a.map(|x: u64| x.wrapping_mul(2)).unwrap();
    assert_eq!(m.rows, a.rows);
    assert_eq!(m.cols, a.cols);
    assert_eq!(m.data, vec![vec![2, 4, 6], vec![8, 10, 12]]);
}

#[test]
fn transpose_known_values() {
    let a = Matrix::<u64>::from(vec![vec![1, 2, 3], vec![4, 5, 6]]);
    let t = a.transpose();
    assert_eq!(t.rows, 3);
    assert_eq!(t.cols, 2);
    assert_eq!(t.data, vec![vec![1, 4], vec![2, 5], vec![3, 6]]);
}

#[test]
fn transpose_involution() {
    let a = Matrix::<u64>::from(vec![vec![1, 2, 3], vec![4, 5, 6]]);
    let tt = a.transpose().transpose();
    assert_eq!(tt.data, a.data);
}

#[test]
fn duplicate_copies_values() {
    let a = Matrix::<u64>::from(vec![vec![1, 2], vec![3, 4]]);
    let d = a.duplicate();
    assert_eq!(d.data, a.data);
    assert_eq!(d.rows, a.rows);
    assert_eq!(d.cols, a.cols);
}

#[test]
fn random_shape_and_determinism() {
    let mut s1 = Lcg64::new(99);
    let mut s2 = Lcg64::new(99);
    let a = Matrix::<u64>::random(3, 2, &mut s1);
    let b = Matrix::<u64>::random(3, 2, &mut s2);
    assert_eq!(a.rows, 3);
    assert_eq!(a.cols, 2);
    assert_eq!(a.data, b.data);
}

#[test]
fn lcg_sequence_deterministic() {
    let mut g = Lcg64::new(1);
    let first = g.step();
    let second = g.step();
    let mut h = Lcg64::new(1);
    assert_eq!(h.step(), first);
    assert_eq!(h.step(), second);
    assert_ne!(first, second);
}

#[test]
fn add_sub_roundtrip_f64_tolerance() {
    // The floating-point instance satisfies the inverse law within rounding.
    let a = vec![vec![0.5_f64, 1.25], vec![3.75, -2.0]];
    let b = vec![vec![0.125_f64, 2.5], vec![-1.5, 4.0]];
    for i in 0..2 {
        for j in 0..2 {
            let round = (a[i][j] - b[i][j]) + b[i][j];
            assert!((round - a[i][j]).abs() < 1e-12);
        }
    }
}
