//! A signer's share of a threshold signature.
use crate::curve::{g1_generator, g1_log, g1_one, g1_point, g1_scalar_mul, g1_scaled, G1Point};
use crate::fhks_bbs_plus::keys::{
    accumulate_messages, lemma_message_log_bound, lemma_message_log_sum, message_basis,
    message_log, PublicKey,
};
use crate::fhks_bbs_plus::precomputation::LivePreSignature;
use crate::field::{fmul, lemma_modr_idem, lemma_modr_small, modr, Scalar};
use crate::summation::sum_range;
use vstd::prelude::*;

verus! {

/// A signer's contribution: its share of `A` and its shares of `delta` and `e`.
pub struct PartialThresholdSignature {
    pub capital_a_share: G1Point,
    pub delta_share: Scalar,
    pub e_share: Scalar,
}

impl PartialThresholdSignature {
    /// The partial signature on `messages` (one per generator of `pk`):
    /// `(g1 + sum_i h_i * m_i) * a_share`, with the live shares of `delta` and `e`.
    pub fn new(messages: &Vec<Scalar>, pk: &PublicKey, pre_signature: &LivePreSignature) -> (r:
        Self)
        requires
            pk.h.len() <= messages.len(),
        ensures
            r.capital_a_share@ == g1_scaled(
                message_basis(g1_generator(), pk.h@, messages@, pk.h.len() as int),
                pre_signature.a_share@,
            ),
            r.delta_share == pre_signature.delta_share,
            r.e_share == pre_signature.e_share,
            r.capital_a_share@ == g1_point(
                fmul(
                    message_log(1, pk.h@, messages@, pk.h.len() as int) as int,
                    pre_signature.a_share@ as int,
                ) as nat,
            ),
            r.capital_a_share@ == g1_point(
                fmul(
                    modr(
                        1 + sum_range(
                            pk.h.len() as int,
                            |i: int| g1_log(pk.h@[i]@) as int * messages@[i]@ as int,
                        ),
                    ),
                    pre_signature.a_share@ as int,
                ) as nat,
            ),
    {
        // message-dependent term
        let g1 = g1_one();
        let basis = accumulate_messages(g1, &pk.h, messages, pk.h.len(), Ghost(1nat));
        // share of A
        let capital_a_share = g1_scalar_mul(&basis, &pre_signature.a_share);
        proof {
            {
                lemma_modr_small(1);
                lemma_message_log_sum(1, pk.h@, messages@, pk.h.len() as int);
                lemma_message_log_bound(1, pk.h@, messages@, pk.h.len() as int);
                let b = message_log(1, pk.h@, messages@, pk.h.len() as int);
                assert(basis@ == g1_point(b));
                lemma_modr_idem(b as int * pre_signature.a_share@ as int);
            }
        }
        PartialThresholdSignature {
            capital_a_share,
            delta_share: pre_signature.delta_share,
            e_share: pre_signature.e_share,
        }
    }
}

} // verus!
