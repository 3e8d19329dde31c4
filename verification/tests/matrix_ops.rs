//! Tests of the matrix container and its arithmetic.

use nn_core::activation::Activation;
use nn_core::matrix::{squared_error, Matrix};
use nanorand::WyRand;

fn mat(rows: usize, cols: usize, data: Vec<i64>) -> Matrix {
    assert_eq!(data.len(), rows * cols);
    Matrix { rows, cols, data }
}

#[test]
fn new_is_zero_filled() {
    let m = Matrix::new(3, 4);
    assert_eq!(m.rows, 3);
    assert_eq!(m.cols, 4);
    assert_eq!(m.data, vec![0i64; 12]);
}

#[test]
fn duplicate_copies_and_detaches() {
    let a = mat(2, 2, vec![1, -2, 3, -4]);
    let mut b = a.duplicate();
    assert_eq!(b.data, a.data);
    assert_eq!((b.rows, b.cols), (2, 2));
    b.data[0] = 99;
    assert_eq!(a.data[0], 1);
}

#[test]
fn add_is_element_wise() {
    let a = mat(2, 3, vec![1, 2, 3, 4, 5, 6]);
    let b = mat(2, 3, vec![10, 20, 30, 40, 50, 60]);
    let r = a.add(&b);
    assert_eq!((r.rows, r.cols), (2, 3));
    assert_eq!(r.data, vec![11, 22, 33, 44, 55, 66]);
}

#[test]
fn add_commutes() {
    let a = mat(2, 2, vec![5, -7, 0, 3]);
    let b = mat(2, 2, vec![-1, 2, 9, -4]);
    let r1 = a.add(&b);
    let r2 = b.add(&a);
    assert_eq!(r1.data, r2.data);
    assert_eq!((r1.rows, r1.cols), (r2.rows, r2.cols));
}

#[test]
fn sub_is_element_wise() {
    let a = mat(1, 3, vec![10, 0, -5]);
    let b = mat(1, 3, vec![3, 4, 5]);
    let r = a.sub(&b);
    assert_eq!(r.data, vec![7, -4, -10]);
}

#[test]
fn sub_equals_add_of_negation() {
    let a = mat(2, 2, vec![8, -3, 2, 7]);
    let b = mat(2, 2, vec![5, 1, -6, 0]);
    let direct = a.sub(&b);
    let via_scale = a.add(&b.scale(-1));
    assert_eq!(direct.data, via_scale.data);
    assert_eq!((direct.rows, direct.cols), (via_scale.rows, via_scale.cols));
}

#[test]
fn scale_zero_gives_zero_matrix() {
    let a = mat(2, 3, vec![7, -8, 9, 100, -200, 3]);
    let r = a.scale(0);
    assert_eq!((r.rows, r.cols), (2, 3));
    assert_eq!(r.data, vec![0; 6]);
}

#[test]
fn scale_multiplies_through() {
    let a = mat(2, 2, vec![1, -2, 3, -4]);
    let r = a.scale(3);
    assert_eq!(r.data, vec![3, -6, 9, -12]);
}

#[test]
fn mul_exact_product() {
    // (2x3) * (3x2)
    let a = mat(2, 3, vec![1, 2, 3, 4, 5, 6]);
    let b = mat(3, 2, vec![7, 8, 9, 10, 11, 12]);
    let r = a.mul(&b);
    assert_eq!((r.rows, r.cols), (2, 2));
    assert_eq!(r.data, vec![58, 64, 139, 154]);
}

#[test]
fn mul_is_associative() {
    let a = mat(2, 3, vec![1, -2, 3, 0, 4, -1]);
    let b = mat(3, 2, vec![2, 1, 0, -3, 5, 4]);
    let c = mat(2, 2, vec![-1, 2, 3, 0]);
    let left = a.mul(&b).mul(&c);
    let right = a.mul(&b.mul(&c));
    assert_eq!((left.rows, left.cols), (right.rows, right.cols));
    assert_eq!(left.data, right.data);
}

#[test]
fn mul_dimension_mismatch_fails() {
    // (2x3) * (4x2): the inner dimensions 3 and 4 differ.
    let a = mat(2, 3, vec![1, 2, 3, 4, 5, 6]);
    let b = mat(4, 2, vec![1, 2, 3, 4, 5, 6, 7, 8]);
    assert!(a.checked_mul(&b).is_none());
}

#[test]
fn checked_mul_overflow_is_none() {
    let a = mat(1, 1, vec![i64::MAX]);
    let b = mat(1, 1, vec![2]);
    assert!(a.checked_mul(&b).is_none());
}

#[test]
fn checked_mul_in_range_is_some() {
    let a = mat(1, 2, vec![2, 3]);
    let b = mat(2, 1, vec![5, 7]);
    let r = a.checked_mul(&b).unwrap();
    assert_eq!((r.rows, r.cols), (1, 1));
    assert_eq!(r.data, vec![31]);
}

#[test]
fn checked_add_overflow_is_none() {
    let a = mat(1, 1, vec![i64::MAX]);
    let b = mat(1, 1, vec![1]);
    assert!(a.checked_add(&b).is_none());
}

#[test]
fn checked_add_shape_mismatch_is_none() {
    let a = mat(1, 2, vec![1, 2]);
    let b = mat(2, 1, vec![1, 2]);
    assert!(a.checked_add(&b).is_none());
}

#[test]
fn randomize_min_equals_max_is_constant() {
    let mut m = Matrix::new(3, 3);
    let mut rng = WyRand::new_seed(11);
    m.randomize(&mut rng, 7, 7);
    assert_eq!(m.data, vec![7; 9]);
    assert_eq!((m.rows, m.cols), (3, 3));
}

#[test]
fn randomize_stays_within_bounds() {
    let mut m = Matrix::new(4, 5);
    let mut rng = WyRand::new_seed(3);
    for _ in 0..10 {
        m.randomize(&mut rng, -5, 9);
        assert!(m.data.iter().all(|&x| -5 <= x && x <= 9));
    }
}

#[test]
fn randomize_reaches_both_endpoints() {
    let mut m = Matrix::new(8, 8);
    let mut rng = WyRand::new_seed(123);
    let mut seen_low = false;
    let mut seen_high = false;
    for _ in 0..20 {
        m.randomize(&mut rng, 0, 1);
        seen_low = seen_low || m.data.iter().any(|&x| x == 0);
        seen_high = seen_high || m.data.iter().any(|&x| x == 1);
    }
    assert!(seen_low && seen_high);
}

#[test]
fn randomize_is_reproducible_from_a_seed() {
    let mut a = Matrix::new(3, 3);
    let mut b = Matrix::new(3, 3);
    let mut rng1 = WyRand::new_seed(77);
    let mut rng2 = WyRand::new_seed(77);
    a.randomize(&mut rng1, -100, 100);
    b.randomize(&mut rng2, -100, 100);
    assert_eq!(a.data, b.data);
}

#[test]
fn relu_clamps_negatives() {
    assert_eq!(nn_core::activation::relu(5), 5);
    assert_eq!(nn_core::activation::relu(0), 0);
    assert_eq!(nn_core::activation::relu(-3), 0);
    assert_eq!(Activation::Relu.apply(-9), 0);
    assert_eq!(Activation::Identity.apply(-9), -9);
}

#[test]
fn activate_applies_element_wise() {
    let a = mat(2, 2, vec![3, -4, 0, 9]);
    let r = a.activate(Activation::Relu);
    assert_eq!(r.data, vec![3, 0, 0, 9]);
}

#[test]
fn squared_error_is_squared_difference() {
    let target = mat(1, 2, vec![1, -2]);
    let output = mat(1, 2, vec![4, 1]);
    let r = squared_error(&target, &output);
    assert_eq!((r.rows, r.cols), (1, 2));
    assert_eq!(r.data, vec![9, 9]);
}
