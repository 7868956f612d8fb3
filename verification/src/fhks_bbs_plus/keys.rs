//! The public key of the threshold BBS+ scheme.
use crate::curve::{
    g1_add_points, g1_log, g1_point, g1_random, g1_scalar_mul, g1_scaled, g1_sum, g2_generator,
    g2_one, g2_point, g2_scalar_mul, g2_scaled, is_g1, G1Point, G2Point,
};
use crate::field::{
    fadd, field_order, fmul, lemma_modr_add, lemma_modr_idem, lemma_modr_small,
    lemma_scalar_in_field, modr, Scalar,
};
use crate::summation::sum_range;
use crate::helpers::rng::xorshift_from_seed;
use rand_xorshift::XorShiftRng;
use vstd::prelude::*;

verus! {

/// The public key: the generators `h0`, `h_1..h_m` of G1 for the blinding
/// value and the messages, and `w = g2 * sk`.
pub struct PublicKey {
    pub h0: G1Point,
    pub h: Vec<G1Point>,
    pub w: G2Point,
}

/// `start + h[0] * messages[0] + ... + h[count - 1] * messages[count - 1]` in G1.
pub open spec fn message_basis(
    start: Seq<u8>,
    h: Seq<G1Point>,
    messages: Seq<Scalar>,
    count: int,
) -> Seq<u8>
    decreases count,
{
    if count <= 0 {
        start
    } else {
        g1_sum(
            message_basis(start, h, messages, count - 1),
            g1_scaled(h[count - 1]@, messages[count - 1]@),
        )
    }
}

/// The discrete logarithm of `message_basis`: `start + sum_i log(h[i]) * messages[i]`
/// modulo `r`.
pub open spec fn message_log(start: nat, h: Seq<G1Point>, messages: Seq<Scalar>, count: int) -> nat
    decreases count,
{
    if count <= 0 {
        start
    } else {
        fadd(
            message_log(start, h, messages, count - 1) as int,
            fmul(g1_log(h[count - 1]@) as int, messages[count - 1]@ as int),
        ) as nat
    }
}

/// The discrete logarithm of a message basis is a field element.
pub(crate) proof fn lemma_message_log_bound(
    start: nat,
    h: Seq<G1Point>,
    messages: Seq<Scalar>,
    count: int,
)
    requires
        start < field_order(),
    ensures
        message_log(start, h, messages, count) < field_order(),
{
    if count > 0 {
        let prev = message_log(start, h, messages, count - 1);
        lemma_modr_idem(
            prev as int + fmul(g1_log(h[count - 1]@) as int, messages[count - 1]@ as int),
        );
    }
}

/// The discrete logarithm of a message basis is the start plus the sum of
/// `log(h[i]) * messages[i]` over the first `count` messages, each paired with
/// the generator at its own position, modulo `r`.
pub proof fn lemma_message_log_sum(start: nat, h: Seq<G1Point>, messages: Seq<Scalar>, count: int)
    requires
        start < field_order(),
        0 <= count,
    ensures
        message_log(start, h, messages, count) == modr(
            start + sum_range(count, |i: int| g1_log(h[i]@) as int * messages[i]@ as int),
        ),
    decreases count,
{
    let f = |i: int| g1_log(h[i]@) as int * messages[i]@ as int;
    if count == 0 {
        lemma_modr_small(start as int);
    } else {
        lemma_message_log_sum(start, h, messages, count - 1);
        let prev = sum_range(count - 1, f);
        let t = g1_log(h[count - 1]@) as int * messages[count - 1]@ as int;
        assert(sum_range(count, f) == prev + f(count - 1));
        lemma_modr_add(start + prev, t);
    }
}

/// `pk` is a key for the secret key `sk`: `w = g2 * sk`.
pub open spec fn is_valid_key(pk: PublicKey, sk: nat) -> bool {
    &&& sk < field_order()
    &&& pk.w@ == g2_point(sk)
}

/// Adds `h[i] * messages[i]` for `i < count` to `start`.
pub(crate) fn accumulate_messages(
    start: G1Point,
    h: &Vec<G1Point>,
    messages: &Vec<Scalar>,
    count: usize,
    Ghost(start_log): Ghost<nat>,
) -> (r: G1Point)
    requires
        count <= h.len(),
        count <= messages.len(),
    ensures
        r@ == message_basis(start@, h@, messages@, count as int),
        start_log < field_order() && start@ == g1_point(start_log) ==> r@ == g1_point(
            message_log(start_log, h@, messages@, count as int),
        ),
        start_log < field_order() && start@ == g1_point(start_log) ==> r@ == g1_point(
            modr(start_log + sum_range(count as int, |i: int| g1_log(h@[i]@) as int * messages@[i]@ as int)) as nat,
        ),
{
    let mut basis = start;
    for i in 0..count
        invariant
            count <= h.len(),
            count <= messages.len(),
            basis@ == message_basis(start@, h@, messages@, i as int),
            start_log < field_order() && start@ == g1_point(start_log) ==> basis@ == g1_point(
                message_log(start_log, h@, messages@, i as int),
            ),
    {
        let hi = &h[i];
        proof {
            use_type_invariant(hi);
        }
        let tmp = g1_scalar_mul(hi, &messages[i]);
        let ghost old_basis = basis@;
        basis = g1_add_points(&basis, &tmp);
        proof {
            let hl = g1_log(h@[i as int]@);
            let prev = message_log(start_log, h@, messages@, i as int);
            let term = fmul(hl as int, messages@[i as int]@ as int);
            lemma_modr_idem(hl as int * messages@[i as int]@ as int);
            lemma_modr_idem(prev + term);
            if i > 0 {
                let pp = message_log(start_log, h@, messages@, i - 1);
                lemma_modr_idem(
                    pp as int + fmul(g1_log(h@[i - 1]@) as int, messages@[i - 1]@ as int),
                );
            }
            if start_log < field_order() && start@ == g1_point(start_log) {
                assert(is_g1(h[i as int]@));
                assert(h@[i as int]@ == g1_point(hl));
                assert(tmp@ == g1_point(term as nat));
                assert(old_basis == g1_point(prev));
            }
        }
    }
    proof {
        if start_log < field_order() {
            lemma_message_log_sum(start_log, h@, messages@, count as int);
        }
    }
    basis
}

impl PublicKey {
    /// The public key for the secret key `sk` and `message_count` messages,
    /// with the generators drawn from a generator seeded with `seed_array`.
    pub fn generate(seed_array: [u8; 16], sk: Scalar, message_count: usize) -> (r: Self)
        ensures
            r.h.len() == message_count,
            r.w@ == g2_scaled(g2_generator(), sk@),
            is_valid_key(r, sk@),
    {
        let mut rng = xorshift_from_seed(seed_array);
        Self::generate_from_rng(&mut rng, sk, message_count)
    }

    /// The public key for the secret key `sk` and `message_count` messages:
    /// `w = g2 * sk`, and `h0, h_1, ..., h_m` drawn in this order from `rng`.
    pub fn generate_from_rng(rng: &mut XorShiftRng, sk: Scalar, message_count: usize) -> (r: Self)
        ensures
            r.h.len() == message_count,
            r.w@ == g2_scaled(g2_generator(), sk@),
            is_valid_key(r, sk@),
    {
        let g2 = g2_one();
        let w = g2_scalar_mul(&g2, &sk);
        proof {
            lemma_scalar_in_field(sk);
            lemma_modr_small(sk@ as int);
            assert(g2@ == g2_point(1));
            assert(w@ == g2_point(fmul(1, sk@ as int) as nat));
        }
        let h0 = g1_random(rng);
        let mut h: Vec<G1Point> = Vec::new();
        for _i in 0..message_count
            invariant
                h.len() == _i,
        {
            h.push(g1_random(rng));
        }
        PublicKey { w, h0, h }
    }
}

} // verus!
