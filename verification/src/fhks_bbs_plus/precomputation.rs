//! Per-party precomputed pre-signatures and their conversion into live
//! pre-signatures for a given signer set.
use crate::field::{
    fadd, fmul, lemma_modr_add, lemma_modr_mul, lemma_modr_small, lemma_scalar_in_field, modr,
    scalar_add, scalar_mul, Scalar,
};
use crate::helpers::secret_sharing::{
    get_0_lagrange_coefficient_set_fr, lagrange_zero_coefficients,
};
use crate::summation::sum_range;
use vstd::prelude::*;

verus! {

broadcast use lemma_scalar_in_field;

/// Everything a party holds after the precomputation.
pub struct PerPartyPrecomputations {
    /// The position at which the secret-key polynomial is evaluated for
    /// `sk_share` (one more than the party's place in the list of parties).
    pub index: usize,
    /// The own share `sk_i` of the secret key.
    pub sk_share: Scalar,
    /// One pre-signature per signature to come.
    pub pre_signatures: Vec<PerPartyPreSignature>,
}

/// One party's share of one pre-signature: shares of `a`, `e`, `s` and of
/// the cross products `a * e`, `a * s` and `a * sk`.
pub struct PerPartyPreSignature {
    /// `a_i`.
    pub a_share: Scalar,
    /// `e_i`.
    pub e_share: Scalar,
    /// `s_i`.
    pub s_share: Scalar,
    /// `a_i * e_i`.
    pub ae_term_own: Scalar,
    /// `a_i * s_i`.
    pub as_term_own: Scalar,
    /// `a_i * sk_i`.
    pub ask_term_own: Scalar,
    /// Share of `a_i * e_j` for every party `j` (also `j = i`).
    pub ae_terms_a: Vec<Scalar>,
    /// Share of `a_j * e_i` for every party `j` (the other share).
    pub ae_terms_e: Vec<Scalar>,
    /// Share of `a_i * s_j` for every party `j`.
    pub as_terms_a: Vec<Scalar>,
    /// Share of `a_j * s_i` for every party `j` (the other share).
    pub as_terms_s: Vec<Scalar>,
    /// Share of `a_i * sk_j` for every party `j`.
    pub ask_terms_a: Vec<Scalar>,
    /// Share of `a_j * sk_i` for every party `j` (the other share).
    pub ask_terms_sk: Vec<Scalar>,
}

/// A pre-signature made ready for one signer set: shares of `a`, `e` and of
/// `delta = a * (e + sk)`.
pub struct LivePreSignature {
    pub a_share: Scalar,
    pub e_share: Scalar,
    pub delta_share: Scalar,
}

/// The entry `terms[j - 1]` for the signer `j = indices[q]`, or zero when `j` is `own`.
pub open spec fn other_term(indices: Seq<usize>, own: usize, terms: Seq<Scalar>, q: int) -> int {
    if indices[q] != own {
        terms[indices[q] - 1]@ as int
    } else {
        0
    }
}

/// Sum of `terms[j - 1]` over the first `p` signers `j` of `indices` other than `own`.
pub open spec fn others_sum_upto(indices: Seq<usize>, own: usize, terms: Seq<Scalar>, p: int) -> int {
    sum_range(p, |q: int| other_term(indices, own, terms, q))
}

/// Sum of `terms[j - 1] * coeffs[q]` over the first `p` signers `j = indices[q]` other than `own`.
pub open spec fn others_weighted_sum_upto(
    indices: Seq<usize>,
    own: usize,
    terms: Seq<Scalar>,
    coeffs: Seq<int>,
    p: int,
) -> int {
    sum_range(p, |q: int| other_term(indices, own, terms, q) * coeffs[q])
}

/// The last position of `own` in `indices`, or zero when it does not occur.
pub open spec fn own_position(indices: Seq<usize>, own: usize) -> int
    decreases indices.len(),
{
    if indices.len() == 0 {
        0
    } else if indices.last() == own {
        indices.len() - 1
    } else {
        own_position(indices.drop_last(), own)
    }
}

/// The own share of `a * e`: the own product plus the shares of all cross
/// products with the other signers.
pub open spec fn ae_share_value(pre: PerPartyPreSignature, own: usize, indices: Seq<usize>) -> int {
    pre.ae_term_own@ + others_sum_upto(indices, own, pre.ae_terms_a@, indices.len() as int)
        + others_sum_upto(indices, own, pre.ae_terms_e@, indices.len() as int)
}

/// The own share of `a * sk'`, where `sk' = sum_q coeffs[q] * sk_{indices[q]}`:
/// the shares of `a_i * sk_j` weighted with `j`'s coefficient, plus the own
/// coefficient times the own product and the shares of all `a_j * sk_i`.
pub open spec fn ask_share_value(
    pre: PerPartyPreSignature,
    own: usize,
    indices: Seq<usize>,
    coeffs: Seq<int>,
) -> int {
    others_weighted_sum_upto(indices, own, pre.ask_terms_a@, coeffs, indices.len() as int)
        + coeffs[own_position(indices, own)] * (pre.ask_term_own@ + others_sum_upto(
        indices,
        own,
        pre.ask_terms_sk@,
        indices.len() as int,
    ))
}

/// The live share of `delta = a * (e + sk')`.
pub open spec fn live_delta(
    pre: PerPartyPreSignature,
    own: usize,
    indices: Seq<usize>,
    coeffs: Seq<int>,
) -> int {
    modr(ae_share_value(pre, own, indices) + ask_share_value(pre, own, indices, coeffs))
}

/// Every signer other than `own` names an entry of each cross-term vector,
/// and has a coefficient, as has `own` itself.
pub open spec fn live_inputs_in_range(
    own: usize,
    indices: Seq<usize>,
    pre: PerPartyPreSignature,
    coeff_count: nat,
) -> bool {
    &&& forall|q: int|
        0 <= q < indices.len() && #[trigger] indices[q] != own ==> {
            &&& 1 <= indices[q]
            &&& indices[q] <= pre.ae_terms_a.len()
            &&& indices[q] <= pre.ae_terms_e.len()
            &&& indices[q] <= pre.ask_terms_a.len()
            &&& indices[q] <= pre.ask_terms_sk.len()
            &&& q < coeff_count
        }
    &&& own_position(indices, own) < coeff_count
}

/// The key shares of all parties.
pub open spec fn key_shares(parties: Seq<PerPartyPrecomputations>) -> Seq<Scalar> {
    parties.map_values(|p: PerPartyPrecomputations| p.sk_share)
}

/// Party `j`'s pre-signature `pj` holds, with party `i`'s `pi`, the other
/// share of each cross product of `i`'s `a` with `j`'s `e`, `s` and key share.
pub open spec fn correlated_with(
    pi: PerPartyPreSignature,
    pj: PerPartyPreSignature,
    i: int,
    j: int,
    sk_j: Scalar,
) -> bool {
    &&& fadd(pi.ae_terms_a[j]@ as int, pj.ae_terms_e[i]@ as int) == fmul(
        pi.a_share@ as int,
        pj.e_share@ as int,
    )
    &&& fadd(pi.as_terms_a[j]@ as int, pj.as_terms_s[i]@ as int) == fmul(
        pi.a_share@ as int,
        pj.s_share@ as int,
    )
    &&& fadd(pi.ask_terms_a[j]@ as int, pj.ask_terms_sk[i]@ as int) == fmul(
        pi.a_share@ as int,
        sk_j@ as int,
    )
}

/// Party `i`'s pre-signature number `i_k` holds the own products and, with
/// every party's pre-signature number `i_k`, the shares of the cross products.
pub open spec fn is_correlated_pre_signature(
    parties: Seq<PerPartyPrecomputations>,
    i_k: int,
    i: int,
    n: nat,
) -> bool {
    let pi = parties[i].pre_signatures@[i_k];
    &&& pi.ae_terms_a.len() == n
    &&& pi.ae_terms_e.len() == n
    &&& pi.as_terms_a.len() == n
    &&& pi.as_terms_s.len() == n
    &&& pi.ask_terms_a.len() == n
    &&& pi.ask_terms_sk.len() == n
    &&& pi.ae_term_own@ == fmul(pi.a_share@ as int, pi.e_share@ as int)
    &&& pi.as_term_own@ == fmul(pi.a_share@ as int, pi.s_share@ as int)
    &&& pi.ask_term_own@ == fmul(pi.a_share@ as int, parties[i].sk_share@ as int)
    &&& forall|j: int|
        0 <= j < n ==> correlated_with(
            pi,
            #[trigger] parties[j].pre_signatures@[i_k],
            i,
            j,
            parties[j].sk_share,
        )
}

impl LivePreSignature {
    /// The live pre-signature of party `own_index` for the signer set
    /// `indices`, with the Lagrange coefficients for an interpolation to zero.
    pub fn from_presignature(
        own_index: usize,
        indices: &Vec<usize>,
        pre_signature: &PerPartyPreSignature,
    ) -> (r: Self)
        requires
            live_inputs_in_range(own_index, indices@, *pre_signature, indices.len() as nat),
        ensures
            r.a_share == pre_signature.a_share,
            r.e_share == pre_signature.e_share,
            r.delta_share@ == live_delta(
                *pre_signature,
                own_index,
                indices@,
                lagrange_zero_coefficients(indices@),
            ),
    {
        let lagrange_coefficients = get_0_lagrange_coefficient_set_fr(indices);
        Self::from_presignature_with_coefficients(
            own_index,
            indices,
            pre_signature,
            &lagrange_coefficients,
        )
    }

    /// The live pre-signature of party `own_index` for the signer set
    /// `indices`, with the given coefficient for each signer.
    pub fn from_presignature_with_coefficients(
        own_index: usize,
        indices: &Vec<usize>,
        pre_signature: &PerPartyPreSignature,
        lagrange_coefficients: &Vec<Scalar>,
    ) -> (r: Self)
        requires
            live_inputs_in_range(
                own_index,
                indices@,
                *pre_signature,
                lagrange_coefficients.len() as nat,
            ),
        ensures
            r.a_share == pre_signature.a_share,
            r.e_share == pre_signature.e_share,
            r.delta_share@ == live_delta(
                *pre_signature,
                own_index,
                indices@,
                lagrange_coefficients@.map_values(|c: Scalar| c@ as int),
            ),
    {
        let ghost idx = indices@;
        let ghost coeffs = lagrange_coefficients@.map_values(|c: Scalar| c@ as int);
        let ghost pre = *pre_signature;
        // the own product, then the shares of the cross products with the other signers
        let mut ae_share = pre_signature.ae_term_own;
        // the part weighted with the other signers' coefficients
        let mut ask_share = Scalar::zero();
        // the part weighted with the own coefficient, applied at the end
        let mut tmp_ask_own_coefficient = pre_signature.ask_term_own;
        let mut ind_i: usize = 0;
        proof {
            lemma_modr_small(pre.ae_term_own@ as int);
            lemma_modr_small(pre.ask_term_own@ as int);
            assert(idx.take(0) =~= Seq::<usize>::empty());
        }
        for ind_j in 0..indices.len()
            invariant
                idx == indices@,
                pre == *pre_signature,
                coeffs == lagrange_coefficients@.map_values(|c: Scalar| c@ as int),
                live_inputs_in_range(own_index, idx, pre, lagrange_coefficients.len() as nat),
                ae_share@ == modr(
                    pre.ae_term_own@ + others_sum_upto(idx, own_index, pre.ae_terms_a@, ind_j as int)
                        + others_sum_upto(idx, own_index, pre.ae_terms_e@, ind_j as int),
                ),
                ask_share@ == modr(
                    others_weighted_sum_upto(idx, own_index, pre.ask_terms_a@, coeffs, ind_j as int),
                ),
                tmp_ask_own_coefficient@ == modr(
                    pre.ask_term_own@ + others_sum_upto(idx, own_index, pre.ask_terms_sk@, ind_j as int),
                ),
                ind_i == own_position(idx.take(ind_j as int), own_index),
        {
            let el_j = indices[ind_j];
            proof {
                assert(idx.take(ind_j + 1).drop_last() =~= idx.take(ind_j as int));
            }
            let ghost q = ind_j as int;
            let ghost ae0 = others_sum_upto(idx, own_index, pre.ae_terms_a@, q);
            let ghost ae1 = others_sum_upto(idx, own_index, pre.ae_terms_e@, q);
            let ghost w0 = others_weighted_sum_upto(idx, own_index, pre.ask_terms_a@, coeffs, q);
            let ghost sk0 = others_sum_upto(idx, own_index, pre.ask_terms_sk@, q);
            if el_j != own_index {
                let ta = pre_signature.ae_terms_a[el_j - 1];
                let te = pre_signature.ae_terms_e[el_j - 1];
                ae_share = scalar_add(&ae_share, &ta);
                ae_share = scalar_add(&ae_share, &te);
                let tmp = scalar_mul(&pre_signature.ask_terms_a[el_j - 1], &lagrange_coefficients[ind_j]);
                ask_share = scalar_add(&ask_share, &tmp);
                tmp_ask_own_coefficient = scalar_add(
                    &tmp_ask_own_coefficient,
                    &pre_signature.ask_terms_sk[el_j - 1],
                );
                proof {
                    let b = pre.ae_term_own@ as int;
                    lemma_modr_add(b + ae0 + ae1, ta@ as int);
                    lemma_modr_add(b + ae0 + ae1 + ta@, te@ as int);
                    let x = pre.ask_terms_a@[el_j - 1]@ as int;
                    let c = coeffs[q];
                    lemma_modr_add(w0, x * c);
                    lemma_modr_mul(x, c);
                    lemma_modr_add(pre.ask_term_own@ + sk0, pre.ask_terms_sk@[el_j - 1]@ as int);
                }
            } else {
                ind_i = ind_j;
            }
        }
        proof {
            assert(idx.take(idx.len() as int) =~= idx);
        }
        let own_coefficient = lagrange_coefficients[ind_i];
        tmp_ask_own_coefficient = scalar_mul(&tmp_ask_own_coefficient, &own_coefficient);
        let ghost w = others_weighted_sum_upto(idx, own_index, pre.ask_terms_a@, coeffs, idx.len() as int);
        let ghost o = pre.ask_term_own@ + others_sum_upto(idx, own_index, pre.ask_terms_sk@, idx.len() as int);
        ask_share = scalar_add(&ask_share, &tmp_ask_own_coefficient);
        let delta_share = scalar_add(&ae_share, &ask_share);
        proof {
            let c = coeffs[ind_i as int];
            lemma_modr_mul(o, c);
            lemma_modr_add(w, o * c);
            assert(o * c == c * o) by (nonlinear_arith);
            lemma_modr_add(ae_share_value(pre, own_index, idx), w + c * o);
        }
        LivePreSignature {
            a_share: pre_signature.a_share,
            e_share: pre_signature.e_share,
            delta_share,
        }
    }
}

} // verus!
