//! The fixed-point vector algebra: exact expected values for every
//! operation, plus the saturation and division-by-zero edge cases.

use separations::vector::{Vector3, FX_ONE};

fn v(x: i64, y: i64, z: i64) -> Vector3 {
    Vector3::new(x, y, z)
}

#[test]
fn negation() {
    assert_eq!(v(FX_ONE, -FX_ONE, FX_ONE), v(-FX_ONE, FX_ONE, -FX_ONE).neg());
}

#[test]
fn vector_addition() {
    let a = v(1 * FX_ONE, 2 * FX_ONE, 3 * FX_ONE);
    let b = v(3 * FX_ONE, 2 * FX_ONE, 1 * FX_ONE);
    assert_eq!(v(4 * FX_ONE, 4 * FX_ONE, 4 * FX_ONE), a.add(b));
}

#[test]
fn vector_addition_inverse() {
    let a = v(4 * FX_ONE, 4 * FX_ONE, 4 * FX_ONE);
    let b = v(3 * FX_ONE, 2 * FX_ONE, 1 * FX_ONE);
    assert_eq!(v(1 * FX_ONE, 2 * FX_ONE, 3 * FX_ONE), a.sub(b));
}

#[test]
fn scalar_multiplication() {
    let a = v(FX_ONE, FX_ONE, FX_ONE);
    assert_eq!(v(2 * FX_ONE, 2 * FX_ONE, 2 * FX_ONE), a.scale(2 * FX_ONE));
}

#[test]
fn scalar_multiplication_negative() {
    let a = v(FX_ONE, -FX_ONE, 2 * FX_ONE);
    assert_eq!(v(-FX_ONE, FX_ONE, -2 * FX_ONE), a.scale(-FX_ONE));
}

#[test]
fn scalar_multiplication_inverse() {
    let a = v(FX_ONE, FX_ONE, FX_ONE);
    assert_eq!(v(FX_ONE / 2, FX_ONE / 2, FX_ONE / 2), a.scale_div(2 * FX_ONE));
}

#[test]
fn hadamard_multiplication() {
    let a = v(1 * FX_ONE, 2 * FX_ONE, 3 * FX_ONE);
    assert_eq!(v(1 * FX_ONE, 4 * FX_ONE, 9 * FX_ONE), a.mul_elem(a));
}

#[test]
fn hadamard_multiplication_inverse() {
    let a = v(1 * FX_ONE, 4 * FX_ONE, 9 * FX_ONE);
    let b = v(1 * FX_ONE, 2 * FX_ONE, 3 * FX_ONE);
    assert_eq!(v(1 * FX_ONE, 2 * FX_ONE, 3 * FX_ONE), a.div_elem(b));
}

#[test]
fn component_access() {
    let mut a = v(10, 20, 30);
    assert_eq!(a.nth(0), 10);
    assert_eq!(a.nth(1), 20);
    assert_eq!(a.nth(2), 30);
    a.set_nth(1, 99);
    assert_eq!(v(10, 99, 30), a);
}

#[test]
fn generator_constructor() {
    let built = Vector3::generate(&|i: usize| (i as i64 + 1) * 10);
    assert_eq!(built, v(10, 20, 30));
}

#[test]
fn mutable_component_access() {
    let mut a = v(1, 2, 3);
    *a.nth_mut(2) = 7;
    assert_eq!(a, v(1, 2, 7));
}

#[test]
fn addition_saturates() {
    let a = v(i64::MAX, i64::MIN, 0);
    let b = v(1, -1, 0);
    assert_eq!(v(i64::MAX, i64::MIN, 0), a.add(b));
}

#[test]
fn negation_saturates() {
    assert_eq!(v(i64::MAX, i64::MAX, 0), v(i64::MIN, -i64::MAX, 0).neg());
}

#[test]
fn division_by_zero_saturates() {
    let a = v(FX_ONE, -FX_ONE, 0);
    let zero = v(0, 0, 0);
    assert_eq!(v(i64::MAX, i64::MIN, 0), a.div_elem(zero));
    assert_eq!(v(i64::MAX, i64::MIN, 0), a.scale_div(0));
}
