//! Each function performs one operation and discards the result; they exist
//! to be timed.
use crate::curve::{
    compute_pairing, g1_add_points, g1_scalar_mul, g2_add_points, g2_scalar_mul, G1Point,
    G2Point,
};
use crate::field::{scalar_add, scalar_inverse, scalar_mul, Scalar};
use vstd::prelude::*;

verus! {

/// One addition in G1.
pub fn g1_add(x: G1Point, y: G1Point) {
    let _ = g1_add_points(&x, &y);
}

/// One addition in G2.
pub fn g2_add(x: G2Point, y: G2Point) {
    let _ = g2_add_points(&x, &y);
}

/// One scalar multiplication in G1.
pub fn g1_mul(x: G1Point, y: Scalar) {
    let _ = g1_scalar_mul(&x, &y);
}

/// One scalar multiplication in G2.
pub fn g2_mul(x: G2Point, y: Scalar) {
    let _ = g2_scalar_mul(&x, &y);
}

/// One addition in the scalar field.
pub fn fr_add(x: Scalar, y: Scalar) {
    let _ = scalar_add(&x, &y);
}

/// One multiplication in the scalar field.
pub fn fr_mul(x: Scalar, y: Scalar) {
    let _ = scalar_mul(&x, &y);
}

/// One inversion in the scalar field; zero has no inverse.
pub fn fr_inv(x: Scalar)
    requires
        x@ != 0,
{
    let _ = scalar_inverse(&x);
}

/// One pairing.
pub fn pair(x: G1Point, y: G2Point) {
    let _ = compute_pairing(&x, &y);
}

} // verus!
