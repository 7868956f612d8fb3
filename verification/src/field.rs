//! The scalar field `Fr` of BLS12-381, held as canonical little-endian limbs.
//!
//! Every arithmetic operation is computed by `ff_zeroize`'s `Field` trait on
//! `pairing_plus::bls12_381::Fr`; the contracts state it over the integer
//! that the limbs encode, reduced modulo the field order.
use ff_zeroize::{Field, PrimeField};
use pairing_plus::bls12_381::{Fr, FrRepr};
use pairing_plus::hash_to_field::{hash_to_field, ExpandMsgXmd};
use rand_xorshift::XorShiftRng;
use sha2::Sha256;
use vstd::prelude::*;

verus! {

/// `rand_xorshift::XorShiftRng`, the seeded generator behind every random draw.
#[verifier::external_type_specification]
#[verifier::external_body]
pub struct ExXorShiftRng(XorShiftRng);

/// The order `r` of the scalar field (and of the groups G1, G2).
pub open spec fn field_order() -> nat {
    52435875175126190479447740508185965837690552500527637822603658699938581184513nat
}

/// Reduction of an integer into the field.
pub open spec fn modr(x: int) -> int {
    x % (field_order() as int)
}

/// Field addition.
pub open spec fn fadd(a: int, b: int) -> int {
    modr(a + b)
}

/// Field subtraction.
pub open spec fn fsub(a: int, b: int) -> int {
    modr(a - b)
}

/// Field multiplication.
pub open spec fn fmul(a: int, b: int) -> int {
    modr(a * b)
}

/// The multiplicative inverse of a nonzero field element.
pub open spec fn finv(a: nat) -> nat {
    choose|y: nat| y < field_order() && fmul(a as int, y as int) == 1
}

/// The integer that four little-endian 64-bit limbs encode.
pub open spec fn limbs_value(limbs: [u64; 4]) -> nat {
    limbs[0] as nat + limbs[1] as nat * 18446744073709551616nat
        + limbs[2] as nat * 340282366920938463463374607431768211456nat
        + limbs[3] as nat * 6277101735386680763835789423207666416102355444464034512896nat
}

/// Reducing before an addition does not change the reduced sum.
pub proof fn lemma_modr_add(a: int, b: int)
    ensures
        modr(modr(a) + modr(b)) == modr(a + b),
        modr(modr(a) + b) == modr(a + b),
        modr(a + modr(b)) == modr(a + b),
{
    let m = field_order() as int;
    vstd::arithmetic::div_mod::lemma_add_mod_noop(a, b, m);
    vstd::arithmetic::div_mod::lemma_add_mod_noop_right(b, a, m);
    vstd::arithmetic::div_mod::lemma_add_mod_noop_right(a, b, m);
}

/// Reducing before a subtraction does not change the reduced difference.
pub proof fn lemma_modr_sub(a: int, b: int)
    ensures
        modr(modr(a) - modr(b)) == modr(a - b),
{
    vstd::arithmetic::div_mod::lemma_sub_mod_noop(a, b, field_order() as int);
}

/// Reducing before a multiplication does not change the reduced product.
pub proof fn lemma_modr_mul(a: int, b: int)
    ensures
        modr(modr(a) * modr(b)) == modr(a * b),
        modr(modr(a) * b) == modr(a * b),
        modr(a * modr(b)) == modr(a * b),
{
    vstd::arithmetic::div_mod::lemma_mul_mod_noop_general(a, b, field_order() as int);
}

/// A value already in the field is its own reduction.
pub proof fn lemma_modr_small(a: int)
    requires
        0 <= a < field_order(),
    ensures
        modr(a) == a,
{
    vstd::arithmetic::div_mod::lemma_small_mod(a as nat, field_order());
}

/// Reduction is idempotent.
pub proof fn lemma_modr_idem(a: int)
    ensures
        modr(modr(a)) == modr(a),
        0 <= modr(a) < field_order(),
{
    vstd::arithmetic::div_mod::lemma_mod_twice(a, field_order() as int);
}

/// An element of the scalar field, as the canonical limbs of its value.
#[derive(Clone, Copy, Debug, PartialEq, Eq)]
pub struct Scalar {
    pub(crate) limbs: [u64; 4],
}

impl Scalar {
    /// The limbs always encode a value below the field order.
    #[verifier::type_invariant]
    spec fn canonical(self) -> bool {
        limbs_value(self.limbs) < field_order()
    }
}

impl View for Scalar {
    type V = nat;

    closed spec fn view(&self) -> nat {
        limbs_value(self.limbs) % field_order()
    }
}

/// The value of a scalar lies in the field.
pub broadcast proof fn lemma_scalar_in_field(s: Scalar)
    ensures
        #[trigger] s@ < field_order(),
{
}

impl Scalar {
    /// The additive identity.
    pub fn zero() -> (r: Scalar)
        ensures
            r@ == 0,
    {
        let r = Scalar { limbs: [0u64, 0u64, 0u64, 0u64] };
        assert(limbs_value(r.limbs) == 0);
        r
    }

    /// The multiplicative identity.
    pub fn one() -> (r: Scalar)
        ensures
            r@ == 1,
    {
        let r = Scalar { limbs: [1u64, 0u64, 0u64, 0u64] };
        assert(limbs_value(r.limbs) == 1);
        r
    }

    /// The field element of value `x`.
    pub fn from_u64(x: u64) -> (r: Scalar)
        ensures
            r@ == x,
    {
        scalar_from_u64(x)
    }

    /// The field element with the given little-endian limbs, or `None` where
    /// they encode a value that is not below the field order.
    pub fn from_limbs(limbs: [u64; 4]) -> (r: Option<Scalar>)
        ensures
            r is Some <==> limbs_value(limbs) < field_order(),
            r matches Some(x) ==> x@ == limbs_value(limbs),
    {
        let m: [u64; 4] = [
            0xffffffff00000001u64,
            0x53bda402fffe5bfeu64,
            0x3339d80809a1d805u64,
            0x73eda753299d7d48u64,
        ];
        assert(limbs_value(m) == field_order());
        let below = if limbs[3] != m[3] {
            limbs[3] < m[3]
        } else if limbs[2] != m[2] {
            limbs[2] < m[2]
        } else if limbs[1] != m[1] {
            limbs[1] < m[1]
        } else {
            limbs[0] < m[0]
        };
        assert(below == (limbs_value(limbs) < limbs_value(m)));
        if below {
            proof {
                vstd::arithmetic::div_mod::lemma_small_mod(limbs_value(limbs), field_order());
            }
            Some(Scalar { limbs })
        } else {
            None
        }
    }

    /// The canonical little-endian limbs of the value.
    pub fn to_limbs(&self) -> (r: [u64; 4])
        ensures
            limbs_value(r) == self@,
    {
        proof {
            use_type_invariant(self);
            vstd::arithmetic::div_mod::lemma_small_mod(limbs_value(self.limbs), field_order());
        }
        self.limbs
    }
}

/// `Field::add_assign` on `Fr`: the sum of the two elements.
#[verifier::external_body]
pub(crate) fn scalar_add(a: &Scalar, b: &Scalar) -> (r: Scalar)
    ensures
        r@ == fadd(a@ as int, b@ as int),
{
    let mut x = Fr::from_repr(FrRepr(a.limbs)).unwrap();
    x.add_assign(&Fr::from_repr(FrRepr(b.limbs)).unwrap());
    Scalar { limbs: x.into_repr().0 }
}

/// `Field::sub_assign` on `Fr`: the difference of the two elements.
#[verifier::external_body]
pub(crate) fn scalar_sub(a: &Scalar, b: &Scalar) -> (r: Scalar)
    ensures
        r@ == fsub(a@ as int, b@ as int),
{
    let mut x = Fr::from_repr(FrRepr(a.limbs)).unwrap();
    x.sub_assign(&Fr::from_repr(FrRepr(b.limbs)).unwrap());
    Scalar { limbs: x.into_repr().0 }
}

/// `Field::mul_assign` on `Fr`: the product of the two elements.  `Fr` is a
/// prime field, so the product is zero only when a factor is.
#[verifier::external_body]
pub(crate) fn scalar_mul(a: &Scalar, b: &Scalar) -> (r: Scalar)
    ensures
        r@ == fmul(a@ as int, b@ as int),
        r@ == 0 ==> a@ == 0 || b@ == 0,
{
    let mut x = Fr::from_repr(FrRepr(a.limbs)).unwrap();
    x.mul_assign(&Fr::from_repr(FrRepr(b.limbs)).unwrap());
    Scalar { limbs: x.into_repr().0 }
}

/// `Field::inverse` on `Fr`: `None` for zero, otherwise the element whose
/// product with the argument is one (unique, as `r` is prime).
#[verifier::external_body]
pub(crate) fn scalar_inverse(a: &Scalar) -> (r: Option<Scalar>)
    ensures
        r is None <==> a@ == 0,
        r matches Some(y) ==> fmul(a@ as int, y@ as int) == 1 && y@ == finv(a@),
{
    match Fr::from_repr(FrRepr(a.limbs)).unwrap().inverse() {
        Some(y) => Some(Scalar { limbs: y.into_repr().0 }),
        None => None,
    }
}

/// `Field::random` on `Fr`: a field element drawn from the generator; what
/// it is depends on the generator's state, which is not modelled.
#[verifier::external_body]
pub(crate) fn scalar_random(rng: &mut XorShiftRng) -> (r: Scalar) {
    Scalar { limbs: Fr::random(rng).into_repr().0 }
}

/// The field element of value `x`: its limbs are `[x, 0, 0, 0]`, already
/// canonical since `x < 2^64 < r`.
pub(crate) fn scalar_from_u64(x: u64) -> (r: Scalar)
    ensures
        r@ == x,
{
    let r = Scalar { limbs: [x, 0u64, 0u64, 0u64] };
    assert(limbs_value(r.limbs) == x);
    proof {
        vstd::arithmetic::div_mod::lemma_small_mod(x as nat, field_order());
    }
    r
}

/// The field elements that `hash_to_field` with `expand_message_xmd` over
/// SHA-256 derives from the UTF-8 bytes of `msg` under the domain tag `dst`.
pub uninterp spec fn hash_to_field_values(msg: Seq<char>, dst: Seq<u8>, count: nat) -> Seq<int>;

/// `pairing_plus::hash_to_field::hash_to_field::<Fr, ExpandMsgXmd<Sha256>>`:
/// `count` field elements, each from 48 bytes of the expanded message (the
/// expansion panics beyond 255 SHA-256 blocks, which `requires` rules out).
#[verifier::external_body]
pub(crate) fn hash_to_scalars(msg: &str, dst: &[u8], count: usize) -> (r: Vec<Scalar>)
    requires
        count * 48 <= 255 * 32,
    ensures
        r.len() == count,
        forall|i: int| 0 <= i < count ==> #[trigger] r[i]@ == hash_to_field_values(msg@, dst@, count as nat)[i],
{
    let values = hash_to_field::<Fr, ExpandMsgXmd<Sha256>>(msg.as_bytes(), dst, count);
    values.iter().map(|f| Scalar { limbs: f.into_repr().0 }).collect()
}

} // verus!
