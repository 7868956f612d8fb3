//! The groups G1, G2 of BLS12-381 and the pairing into its target group.
//!
//! Points are held as their canonical uncompressed encodings (96 bytes for
//! G1, 192 for G2) and target-group elements as the canonical serialization
//! of the `Fq12` element.  The group operations and the pairing are computed
//! by `pairing_plus`; their results are named by the uninterpreted functions
//! below, applied to the encodings of the arguments.
use crate::field::{fadd, field_order, fmul, Scalar};
use pairing_plus::bls12_381::{Bls12, FrRepr, G1Uncompressed, G2Uncompressed, G1, G2};
use pairing_plus::serdes::SerDes;
use pairing_plus::{CurveAffine, CurveProjective, EncodedPoint, Engine};
use rand_xorshift::XorShiftRng;
use vstd::prelude::*;

verus! {

/// Encoding of the sum of the two G1 points encoded by `a` and `b`.
pub uninterp spec fn g1_sum(a: Seq<u8>, b: Seq<u8>) -> Seq<u8>;

/// Encoding of the G1 point encoded by `p`, multiplied by the scalar `s`.
pub uninterp spec fn g1_scaled(p: Seq<u8>, s: nat) -> Seq<u8>;

/// Encoding of the sum of the two G2 points encoded by `a` and `b`.
pub uninterp spec fn g2_sum(a: Seq<u8>, b: Seq<u8>) -> Seq<u8>;

/// Encoding of the G2 point encoded by `p`, multiplied by the scalar `s`.
pub uninterp spec fn g2_scaled(p: Seq<u8>, s: nat) -> Seq<u8>;

/// Serialization of the pairing of the G1 point `p` with the G2 point `q`.
pub uninterp spec fn pairing_value(p: Seq<u8>, q: Seq<u8>) -> Seq<u8>;

/// Uncompressed encoding of the fixed generator of G1.
pub open spec fn g1_generator() -> Seq<u8> {
    seq![
        0x17, 0xf1, 0xd3, 0xa7, 0x31, 0x97, 0xd7, 0x94, 0x26, 0x95, 0x63, 0x8c, 0x4f, 0xa9, 0xac, 0x0f,
        0xc3, 0x68, 0x8c, 0x4f, 0x97, 0x74, 0xb9, 0x05, 0xa1, 0x4e, 0x3a, 0x3f, 0x17, 0x1b, 0xac, 0x58,
        0x6c, 0x55, 0xe8, 0x3f, 0xf9, 0x7a, 0x1a, 0xef, 0xfb, 0x3a, 0xf0, 0x0a, 0xdb, 0x22, 0xc6, 0xbb,
        0x08, 0xb3, 0xf4, 0x81, 0xe3, 0xaa, 0xa0, 0xf1, 0xa0, 0x9e, 0x30, 0xed, 0x74, 0x1d, 0x8a, 0xe4,
        0xfc, 0xf5, 0xe0, 0x95, 0xd5, 0xd0, 0x0a, 0xf6, 0x00, 0xdb, 0x18, 0xcb, 0x2c, 0x04, 0xb3, 0xed,
        0xd0, 0x3c, 0xc7, 0x44, 0xa2, 0x88, 0x8a, 0xe4, 0x0c, 0xaa, 0x23, 0x29, 0x46, 0xc5, 0xe7, 0xe1
    ]
}

/// Uncompressed encoding of the fixed generator of G2.
pub open spec fn g2_generator() -> Seq<u8> {
    seq![
        0x13, 0xe0, 0x2b, 0x60, 0x52, 0x71, 0x9f, 0x60, 0x7d, 0xac, 0xd3, 0xa0, 0x88, 0x27, 0x4f, 0x65,
        0x59, 0x6b, 0xd0, 0xd0, 0x99, 0x20, 0xb6, 0x1a, 0xb5, 0xda, 0x61, 0xbb, 0xdc, 0x7f, 0x50, 0x49,
        0x33, 0x4c, 0xf1, 0x12, 0x13, 0x94, 0x5d, 0x57, 0xe5, 0xac, 0x7d, 0x05, 0x5d, 0x04, 0x2b, 0x7e,
        0x02, 0x4a, 0xa2, 0xb2, 0xf0, 0x8f, 0x0a, 0x91, 0x26, 0x08, 0x05, 0x27, 0x2d, 0xc5, 0x10, 0x51,
        0xc6, 0xe4, 0x7a, 0xd4, 0xfa, 0x40, 0x3b, 0x02, 0xb4, 0x51, 0x0b, 0x64, 0x7a, 0xe3, 0xd1, 0x77,
        0x0b, 0xac, 0x03, 0x26, 0xa8, 0x05, 0xbb, 0xef, 0xd4, 0x80, 0x56, 0xc8, 0xc1, 0x21, 0xbd, 0xb8,
        0x06, 0x06, 0xc4, 0xa0, 0x2e, 0xa7, 0x34, 0xcc, 0x32, 0xac, 0xd2, 0xb0, 0x2b, 0xc2, 0x8b, 0x99,
        0xcb, 0x3e, 0x28, 0x7e, 0x85, 0xa7, 0x63, 0xaf, 0x26, 0x74, 0x92, 0xab, 0x57, 0x2e, 0x99, 0xab,
        0x3f, 0x37, 0x0d, 0x27, 0x5c, 0xec, 0x1d, 0xa1, 0xaa, 0xa9, 0x07, 0x5f, 0xf0, 0x5f, 0x79, 0xbe,
        0x0c, 0xe5, 0xd5, 0x27, 0x72, 0x7d, 0x6e, 0x11, 0x8c, 0xc9, 0xcd, 0xc6, 0xda, 0x2e, 0x35, 0x1a,
        0xad, 0xfd, 0x9b, 0xaa, 0x8c, 0xbd, 0xd3, 0xa7, 0x6d, 0x42, 0x9a, 0x69, 0x51, 0x60, 0xd1, 0x2c,
        0x92, 0x3a, 0xc9, 0xcc, 0x3b, 0xac, 0xa2, 0x89, 0xe1, 0x93, 0x54, 0x86, 0x08, 0xb8, 0x28, 0x01
    ]
}

/// The encoding of `x` times the generator of G1.  G1 is a cyclic group of
/// the prime order `r`, so every point is such a multiple for some `x < r`.
pub open spec fn g1_point(x: nat) -> Seq<u8> {
    g1_scaled(g1_generator(), x)
}

/// The encoding of `x` times the generator of G2.
pub open spec fn g2_point(x: nat) -> Seq<u8> {
    g2_scaled(g2_generator(), x)
}

/// `p` encodes a point of G1: a multiple of the generator.
pub open spec fn is_g1(p: Seq<u8>) -> bool {
    exists|x: nat| x < field_order() && p == g1_point(x)
}

/// `p` encodes a point of G2: a multiple of the generator.
pub open spec fn is_g2(p: Seq<u8>) -> bool {
    exists|y: nat| y < field_order() && p == g2_point(y)
}

/// A discrete logarithm of the G1 point `p` to the base of the generator.
pub open spec fn g1_log(p: Seq<u8>) -> nat {
    choose|x: nat| x < field_order() && p == g1_point(x)
}

/// Uncompressed encoding of the identity of a group whose encodings are `len` bytes long.
pub open spec fn identity_encoding(len: nat) -> Seq<u8> {
    Seq::new(len, |i: int| if i == 0 { 0x40u8 } else { 0u8 })
}

/// A point of G1, as its uncompressed encoding.
#[derive(Clone, Copy, Debug, PartialEq, Eq)]
pub struct G1Point {
    bytes: [u8; 96],
}

/// A point of G2, as its uncompressed encoding.
#[derive(Clone, Copy, Debug, PartialEq, Eq)]
pub struct G2Point {
    bytes: [u8; 192],
}

/// An element of the pairing's target group, as its serialization.
#[derive(Debug, PartialEq, Eq)]
pub struct GtElement {
    bytes: Vec<u8>,
}

impl G1Point {
    /// The encoding is that of a point of the group of order `r`.
    #[verifier::type_invariant]
    pub open spec fn in_group(self) -> bool {
        is_g1(self@)
    }
}

impl G2Point {
    /// The encoding is that of a point of the group of order `r`.
    #[verifier::type_invariant]
    pub open spec fn in_group(self) -> bool {
        is_g2(self@)
    }
}

impl View for G1Point {
    type V = Seq<u8>;

    closed spec fn view(&self) -> Seq<u8> {
        self.bytes@
    }
}

impl View for G2Point {
    type V = Seq<u8>;

    closed spec fn view(&self) -> Seq<u8> {
        self.bytes@
    }
}

impl View for GtElement {
    type V = Seq<u8>;

    closed spec fn view(&self) -> Seq<u8> {
        self.bytes@
    }
}

impl G1Point {
    /// The point with the given uncompressed encoding, or `None` where the
    /// bytes do not encode a point of the prime-order group.
    pub fn from_bytes(bytes: [u8; 96]) -> (r: Option<G1Point>)
        ensures
            r matches Some(p) ==> p@ == bytes@ && is_g1(p@),
    {
        g1_decode(bytes)
    }

    /// The encoding, byte by byte.
    pub fn to_bytes(&self) -> (r: [u8; 96])
        ensures
            r@ == self@,
    {
        self.bytes
    }
}

impl G2Point {
    /// The point with the given uncompressed encoding, or `None` where the
    /// bytes do not encode a point of the prime-order group.
    pub fn from_bytes(bytes: [u8; 192]) -> (r: Option<G2Point>)
        ensures
            r matches Some(p) ==> p@ == bytes@ && is_g2(p@),
    {
        g2_decode(bytes)
    }

    /// The encoding, byte by byte.
    pub fn to_bytes(&self) -> (r: [u8; 192])
        ensures
            r@ == self@,
    {
        self.bytes
    }
}

/// Whether two target-group elements are equal; as serializations are
/// canonical, this is equality of the encodings.
pub fn gt_equal(a: &GtElement, b: &GtElement) -> (r: bool)
    ensures
        r == (a@ == b@),
{
    if a.bytes.len() != b.bytes.len() {
        return false;
    }
    let mut i: usize = 0;
    while i < a.bytes.len()
        invariant
            a.bytes.len() == b.bytes.len(),
            i <= a.bytes.len(),
            forall|j: int| 0 <= j < i ==> a.bytes@[j] == b.bytes@[j],
        decreases a.bytes.len() - i,
    {
        if a.bytes[i] != b.bytes[i] {
            return false;
        }
        i = i + 1;
    }
    assert(a.bytes@ =~= b.bytes@);
    true
}

/// `CurveProjective::one` for G1: the fixed generator, which is one times itself.
#[verifier::external_body]
pub(crate) fn g1_one() -> (r: G1Point)
    ensures
        r@ == g1_generator(),
        r@ == g1_point(1),
{
    let mut bytes = [0u8; 96];
    bytes.copy_from_slice(G1::one().into_affine().into_uncompressed().as_ref());
    G1Point { bytes }
}

/// `CurveProjective::zero` for G1: the identity (zero times the generator),
/// encoded with only its infinity flag set.
#[verifier::external_body]
pub(crate) fn g1_zero() -> (r: G1Point)
    ensures
        r@ == identity_encoding(96),
        r@ == g1_point(0),
{
    let mut bytes = [0u8; 96];
    bytes.copy_from_slice(G1::zero().into_affine().into_uncompressed().as_ref());
    G1Point { bytes }
}

/// `CurveProjective::random` for G1: a point drawn from the generator; what it
/// is depends on the generator's state, which is not modelled.  The point is
/// cleared of the cofactor, so it lies in the group of order `r`.
#[verifier::external_body]
pub(crate) fn g1_random(rng: &mut XorShiftRng) -> (r: G1Point)
    ensures
        is_g1(r@),
{
    let mut bytes = [0u8; 96];
    bytes.copy_from_slice(G1::random(rng).into_affine().into_uncompressed().as_ref());
    G1Point { bytes }
}

/// `CurveProjective::add_assign` for G1.  In the group of prime order `r`,
/// `x * g1 + y * g1 = ((x + y) mod r) * g1`.
#[verifier::external_body]
pub(crate) fn g1_add_points(a: &G1Point, b: &G1Point) -> (r: G1Point)
    ensures
        r@ == g1_sum(a@, b@),
        forall|x: nat, y: nat|
            #![trigger g1_point(x), g1_point(y)]
            x < field_order() && y < field_order() && a@ == g1_point(x) && b@ == g1_point(y)
                ==> r@ == g1_point(fadd(x as int, y as int) as nat),
{
    let (mut x, mut y) = (G1Uncompressed::empty(), G1Uncompressed::empty());
    x.as_mut().copy_from_slice(&a.bytes);
    y.as_mut().copy_from_slice(&b.bytes);
    let mut p = x.into_affine_unchecked().unwrap().into_projective();
    p.add_assign(&y.into_affine_unchecked().unwrap().into_projective());
    let mut bytes = [0u8; 96];
    bytes.copy_from_slice(p.into_affine().into_uncompressed().as_ref());
    G1Point { bytes }
}

/// `CurveProjective::mul_assign` for G1: scalar multiplication, so that
/// `s * (x * g1) = ((x * s) mod r) * g1`.
#[verifier::external_body]
pub(crate) fn g1_scalar_mul(a: &G1Point, s: &Scalar) -> (r: G1Point)
    ensures
        r@ == g1_scaled(a@, s@),
        forall|x: nat|
            x < field_order() && a@ == #[trigger] g1_point(x) ==> r@ == g1_point(
                fmul(x as int, s@ as int) as nat,
            ),
{
    let mut x = G1Uncompressed::empty();
    x.as_mut().copy_from_slice(&a.bytes);
    let mut p = x.into_affine_unchecked().unwrap().into_projective();
    p.mul_assign(FrRepr(s.limbs));
    let mut bytes = [0u8; 96];
    bytes.copy_from_slice(p.into_affine().into_uncompressed().as_ref());
    G1Point { bytes }
}

/// `CurveProjective::one` for G2: the fixed generator, which is one times itself.
#[verifier::external_body]
pub(crate) fn g2_one() -> (r: G2Point)
    ensures
        r@ == g2_generator(),
        r@ == g2_point(1),
{
    let mut bytes = [0u8; 192];
    bytes.copy_from_slice(G2::one().into_affine().into_uncompressed().as_ref());
    G2Point { bytes }
}

/// `CurveProjective::add_assign` for G2.  In the group of prime order `r`,
/// `x * g2 + y * g2 = ((x + y) mod r) * g2`.
#[verifier::external_body]
pub(crate) fn g2_add_points(a: &G2Point, b: &G2Point) -> (r: G2Point)
    ensures
        r@ == g2_sum(a@, b@),
        forall|x: nat, y: nat|
            #![trigger g2_point(x), g2_point(y)]
            x < field_order() && y < field_order() && a@ == g2_point(x) && b@ == g2_point(y)
                ==> r@ == g2_point(fadd(x as int, y as int) as nat),
{
    let (mut x, mut y) = (G2Uncompressed::empty(), G2Uncompressed::empty());
    x.as_mut().copy_from_slice(&a.bytes);
    y.as_mut().copy_from_slice(&b.bytes);
    let mut p = x.into_affine_unchecked().unwrap().into_projective();
    p.add_assign(&y.into_affine_unchecked().unwrap().into_projective());
    let mut bytes = [0u8; 192];
    bytes.copy_from_slice(p.into_affine().into_uncompressed().as_ref());
    G2Point { bytes }
}

/// `CurveProjective::mul_assign` for G2: scalar multiplication, so that
/// `s * (x * g2) = ((x * s) mod r) * g2`.
#[verifier::external_body]
pub(crate) fn g2_scalar_mul(a: &G2Point, s: &Scalar) -> (r: G2Point)
    ensures
        r@ == g2_scaled(a@, s@),
        forall|x: nat|
            x < field_order() && a@ == #[trigger] g2_point(x) ==> r@ == g2_point(
                fmul(x as int, s@ as int) as nat,
            ),
{
    let mut x = G2Uncompressed::empty();
    x.as_mut().copy_from_slice(&a.bytes);
    let mut p = x.into_affine_unchecked().unwrap().into_projective();
    p.mul_assign(FrRepr(s.limbs));
    let mut bytes = [0u8; 192];
    bytes.copy_from_slice(p.into_affine().into_uncompressed().as_ref());
    G2Point { bytes }
}

/// `Engine::pairing` for `Bls12`, serialized with `SerDes`.  The pairing is
/// bilinear, so `e(x * g1, y * g2) = e(g1, ((x * y) mod r) * g2)`.
#[verifier::external_body]
pub(crate) fn compute_pairing(p: &G1Point, q: &G2Point) -> (r: GtElement)
    ensures
        r@ == pairing_value(p@, q@),
        forall|x: nat, y: nat|
            #![trigger g1_point(x), g2_point(y)]
            x < field_order() && y < field_order() && p@ == g1_point(x) && q@ == g2_point(y)
                ==> r@ == pairing_value(g1_generator(), g2_point(fmul(x as int, y as int) as nat)),
{
    let (mut x, mut y) = (G1Uncompressed::empty(), G2Uncompressed::empty());
    x.as_mut().copy_from_slice(&p.bytes);
    y.as_mut().copy_from_slice(&q.bytes);
    let t = Bls12::pairing(x.into_affine_unchecked().unwrap(), y.into_affine_unchecked().unwrap());
    let mut bytes = Vec::new();
    t.serialize(&mut bytes, false).unwrap();
    GtElement { bytes }
}

/// `EncodedPoint::into_affine` for `G1Uncompressed`: decoding succeeds only
/// for a point on the curve and in the subgroup of order `r` (hence a multiple
/// of the generator), whose coordinates and flags are canonical, so that the
/// bytes are that point's encoding; and the encoding of every such point
/// decodes.
#[verifier::external_body]
fn g1_decode(bytes: [u8; 96]) -> (r: Option<G1Point>)
    ensures
        r matches Some(p) ==> p@ == bytes@ && is_g1(p@),
        is_g1(bytes@) ==> r is Some,
{
    let mut enc = G1Uncompressed::empty();
    enc.as_mut().copy_from_slice(&bytes);
    match enc.into_affine() {
        Ok(_) => Some(G1Point { bytes }),
        Err(_) => None,
    }
}

/// `EncodedPoint::into_affine` for `G2Uncompressed`: as for G1, success means
/// that the bytes are the canonical encoding of a point of the subgroup of
/// order `r`, and the encoding of every such point decodes.
#[verifier::external_body]
fn g2_decode(bytes: [u8; 192]) -> (r: Option<G2Point>)
    ensures
        r matches Some(p) ==> p@ == bytes@ && is_g2(p@),
        is_g2(bytes@) ==> r is Some,
{
    let mut enc = G2Uncompressed::empty();
    enc.as_mut().copy_from_slice(&bytes);
    match enc.into_affine() {
        Ok(_) => Some(G2Point { bytes }),
        Err(_) => None,
    }
}

} // verus!
