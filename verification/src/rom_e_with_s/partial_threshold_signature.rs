//! A signer's share of a signature whose `e` is hashed from a nonce.
use crate::curve::{
    g1_add_points, g1_generator, g1_log, g1_one, g1_point, g1_scalar_mul, g1_scaled, g1_sum,
    G1Point,
};
use crate::fhks_bbs_plus::keys::{
    accumulate_messages, lemma_message_log_bound, lemma_message_log_sum, message_basis, message_log,
    PublicKey,
};
use crate::field::{
    fadd, fmul, hash_to_field_values, hash_to_scalars, lemma_modr_add, lemma_modr_idem,
    lemma_modr_mul, lemma_modr_small, lemma_scalar_in_field, modr, scalar_add, scalar_mul, Scalar,
};
use crate::summation::{lemma_sum_add, lemma_sum_congruent, lemma_sum_scale, sum_range};
use crate::rom_e_with_s::precomputation::LivePreSignature;
use vstd::prelude::*;

verus! {

/// The domain separation tag under which `e` is hashed from the nonce.
pub open spec fn e_domain_tag() -> Seq<u8> {
    seq![0x61u8, 0x73u8, 0x64u8, 0x66u8, 0x71u8, 0x77u8, 0x65u8, 0x72u8, 0x7au8, 0x78u8, 0x63u8, 0x76u8]
}

broadcast use lemma_scalar_in_field;

/// The discrete logarithm of a share of `A`: `b * a_i + log(h0) * alpha_i`,
/// where `b` is the discrete logarithm of the message basis.
pub open spec fn share_log(pk: PublicKey, messages: Seq<Scalar>, pre: LivePreSignature) -> nat {
    fadd(
        fmul(message_log(1, pk.h@, messages, pk.h.len() as int) as int, pre.a_share@ as int),
        fmul(g1_log(pk.h0@) as int, pre.alpha_share@ as int),
    ) as nat
}

/// A signer's contribution: its share of `A`, its share of `delta + e * a`,
/// the common `e`, and its share of `s`.
pub struct PartialThresholdSignature {
    pub capital_a_share: G1Point,
    pub delta_share: Scalar,
    pub e: Scalar,
    pub s_share: Scalar,
}

impl PartialThresholdSignature {
    /// The partial signature on `messages` under `nonce`: `e` is hashed from
    /// the nonce, and the partial signature is the one for that `e`.
    pub fn new(
        messages: &Vec<Scalar>,
        pk: &PublicKey,
        pre_signature: &LivePreSignature,
        nonce: String,
    ) -> (r: Self)
        requires
            pk.h.len() <= messages.len(),
        ensures
            r.e@ == hash_to_field_values(nonce@, e_domain_tag(), 1)[0],
            r.capital_a_share@ == g1_sum(
                g1_scaled(
                    message_basis(g1_generator(), pk.h@, messages@, pk.h.len() as int),
                    pre_signature.a_share@,
                ),
                g1_scaled(pk.h0@, pre_signature.alpha_share@),
            ),
            r.delta_share@ == fadd(
                pre_signature.delta_share@ as int,
                fmul(r.e@ as int, pre_signature.a_share@ as int),
            ),
            r.s_share == pre_signature.s_share,
            r.capital_a_share@ == g1_point(
                share_log(*pk, messages@, *pre_signature),
            ),
            r.capital_a_share@ == g1_point(
                fadd(
                    fmul(
                        modr(
                            1 + sum_range(
                                pk.h.len() as int,
                                |i: int| g1_log(pk.h@[i]@) as int * messages@[i]@ as int,
                            ),
                        ),
                        pre_signature.a_share@ as int,
                    ),
                    fmul(g1_log(pk.h0@) as int, pre_signature.alpha_share@ as int),
                ) as nat,
            ),
    {
        let dst: [u8; 12] = [
            0x61u8, 0x73u8, 0x64u8, 0x66u8, 0x71u8, 0x77u8, 0x65u8, 0x72u8, 0x7au8, 0x78u8, 0x63u8,
            0x76u8,
        ];
        assert(dst@ =~= e_domain_tag());
        let hashed = hash_to_scalars(nonce.as_str(), dst.as_slice(), 1);
        Self::new_with_e(messages, pk, pre_signature, hashed[0])
    }

    /// The partial signature for the given `e`:
    /// `A_i = (g1 + sum_j h_j * m_j) * a_i + h0 * alpha_i`, the share of
    /// `delta` becomes `delta_i + e * a_i`, and `e` and `s_i` are passed on.
    pub fn new_with_e(
        messages: &Vec<Scalar>,
        pk: &PublicKey,
        pre_signature: &LivePreSignature,
        e: Scalar,
    ) -> (r: Self)
        requires
            pk.h.len() <= messages.len(),
        ensures
            r.capital_a_share@ == g1_sum(
                g1_scaled(
                    message_basis(g1_generator(), pk.h@, messages@, pk.h.len() as int),
                    pre_signature.a_share@,
                ),
                g1_scaled(pk.h0@, pre_signature.alpha_share@),
            ),
            r.e == e,
            r.delta_share@ == fadd(
                pre_signature.delta_share@ as int,
                fmul(e@ as int, pre_signature.a_share@ as int),
            ),
            r.s_share == pre_signature.s_share,
            r.capital_a_share@ == g1_point(
                share_log(*pk, messages@, *pre_signature),
            ),
            r.capital_a_share@ == g1_point(
                fadd(
                    fmul(
                        modr(
                            1 + sum_range(
                                pk.h.len() as int,
                                |i: int| g1_log(pk.h@[i]@) as int * messages@[i]@ as int,
                            ),
                        ),
                        pre_signature.a_share@ as int,
                    ),
                    fmul(g1_log(pk.h0@) as int, pre_signature.alpha_share@ as int),
                ) as nat,
            ),
    {
        let g1 = g1_one();
        let basis = accumulate_messages(g1, &pk.h, messages, pk.h.len(), Ghost(1nat));
        let part_a = g1_scalar_mul(&basis, &pre_signature.a_share);
        proof {
            use_type_invariant(&pk.h0);
        }
        let tmp = g1_scalar_mul(&pk.h0, &pre_signature.alpha_share);
        let capital_a_share = g1_add_points(&part_a, &tmp);
        proof {
            {
                lemma_modr_small(1);
                lemma_message_log_bound(1, pk.h@, messages@, pk.h.len() as int);
                lemma_message_log_sum(1, pk.h@, messages@, pk.h.len() as int);
                let b = message_log(1, pk.h@, messages@, pk.h.len() as int);
                assert(basis@ == g1_point(b));
                let l0 = g1_log(pk.h0@);
                assert(pk.h0@ == g1_point(l0));
                lemma_modr_idem(b as int * pre_signature.a_share@ as int);
                lemma_modr_idem(l0 as int * pre_signature.alpha_share@ as int);
                assert(part_a@ == g1_point(fmul(b as int, pre_signature.a_share@ as int) as nat));
                assert(tmp@ == g1_point(fmul(l0 as int, pre_signature.alpha_share@ as int) as nat));
            }
        }
        let ea = scalar_mul(&e, &pre_signature.a_share);
        let delta_share = scalar_add(&pre_signature.delta_share, &ea);
        PartialThresholdSignature { capital_a_share, delta_share, e, s_share: pre_signature.s_share }
    }
}

/// The partial signatures of signers with the same `e` combine: their
/// shares of `delta` add up to `sum_i delta_i + e * sum_i a_i`, and the
/// discrete logarithms of their shares of `A` to `b * sum_i a_i + log(h0) * sum_i alpha_i`,
/// where `b` is the discrete logarithm of the message basis.
pub proof fn lemma_nonce_partial_signatures_combine(
    pk: PublicKey,
    messages: Seq<Scalar>,
    pres: Seq<LivePreSignature>,
    partials: Seq<PartialThresholdSignature>,
    e: Scalar,
)
    requires
        partials.len() == pres.len(),
        forall|p: int|
            0 <= p < pres.len() ==> (#[trigger] partials[p]).delta_share@ == fadd(
                pres[p].delta_share@ as int,
                fmul(e@ as int, pres[p].a_share@ as int),
            ),
    ensures
        modr(sum_range(pres.len() as int, |p: int| partials[p].delta_share@ as int)) == modr(
            sum_range(pres.len() as int, |p: int| pres[p].delta_share@ as int) + e@ * sum_range(
                pres.len() as int,
                |p: int| pres[p].a_share@ as int,
            ),
        ),
        modr(sum_range(pres.len() as int, |p: int| share_log(pk, messages, pres[p]) as int))
            == modr(
            message_log(1, pk.h@, messages, pk.h.len() as int) * sum_range(
                pres.len() as int,
                |p: int| pres[p].a_share@ as int,
            ) + g1_log(pk.h0@) * sum_range(pres.len() as int, |p: int| pres[p].alpha_share@ as int),
        ),
{
    let m = pres.len() as int;
    let b = message_log(1, pk.h@, messages, pk.h.len() as int) as int;
    let l0 = g1_log(pk.h0@) as int;
    let d = |p: int| partials[p].delta_share@ as int;
    let dd = |p: int| pres[p].delta_share@ as int;
    let a = |p: int| pres[p].a_share@ as int;
    let al = |p: int| pres[p].alpha_share@ as int;
    let ea = |p: int| e@ * a(p);
    let both = |p: int| dd(p) + ea(p);
    assert forall|p: int| 0 <= p < m implies #[trigger] modr(d(p)) == modr(both(p)) by {
        lemma_modr_add(dd(p), e@ * a(p));
        lemma_modr_mul(e@ as int, a(p));
        lemma_modr_idem(dd(p) + ea(p));
        lemma_modr_idem(modr(dd(p)) + modr(ea(p)));
    }
    lemma_sum_congruent(m, d, both);
    lemma_sum_add(m, both, dd, ea);
    lemma_sum_scale(m, ea, e@ as int, a);
    let sl = |p: int| share_log(pk, messages, pres[p]) as int;
    let ba = |p: int| b * a(p);
    let la = |p: int| l0 * al(p);
    let lin = |p: int| ba(p) + la(p);
    assert forall|p: int| 0 <= p < m implies #[trigger] modr(sl(p)) == modr(lin(p)) by {
        lemma_modr_add(ba(p), la(p));
        lemma_modr_idem(modr(ba(p)) + modr(la(p)));
        lemma_modr_idem(ba(p));
        lemma_modr_idem(la(p));
    }
    lemma_sum_congruent(m, sl, lin);
    lemma_sum_add(m, lin, ba, la);
    lemma_sum_scale(m, ba, b, a);
    lemma_sum_scale(m, la, l0, al);
}

} // verus!
