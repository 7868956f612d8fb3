//! Live pre-signatures holding shares of `a` and of `beta = a * sk`.
use crate::fhks_bbs_plus::precomputation as full;
use crate::fhks_bbs_plus::precomputation::{
    ask_share_value, other_term, others_sum_upto, others_weighted_sum_upto, own_position,
};
use crate::field::{
    lemma_modr_add, lemma_modr_mul, lemma_modr_small, lemma_scalar_in_field, modr, scalar_add,
    scalar_mul, Scalar,
};
use crate::helpers::secret_sharing::{
    get_0_lagrange_coefficient_set_fr, lagrange_zero_coefficients,
};
use vstd::prelude::*;

verus! {

broadcast use lemma_scalar_in_field;

/// Everything a party holds after the precomputation.
pub struct PerPartyPrecomputations {
    /// The position at which the secret-key polynomial is evaluated for `sk_share`.
    pub index: usize,
    /// The own share `sk_i` of the secret key.
    pub sk_share: Scalar,
    /// One pre-signature per signature to come.
    pub pre_signatures: Vec<PerPartyPreSignature>,
}

/// One party's share of one pre-signature: its share of `a` and shares of
/// the products `a * sk`.
pub struct PerPartyPreSignature {
    /// `a_i`.
    pub a_share: Scalar,
    /// `a_i * sk_i`.
    pub ask_term_own: Scalar,
    /// Share of `a_i * sk_j` for every party `j`.
    pub ask_terms_a: Vec<Scalar>,
    /// Share of `a_j * sk_i` for every party `j` (the other share).
    pub ask_terms_sk: Vec<Scalar>,
}

/// The own share of `beta = a * sk'`, where `sk' = sum_q coeffs[q] * sk_{indices[q]}`:
/// the shares of `a_i * sk_j` weighted with `j`'s coefficient, plus the own
/// coefficient times the own product and the shares of all `a_j * sk_i`.
pub open spec fn beta_share_value(
    pre: PerPartyPreSignature,
    own: usize,
    indices: Seq<usize>,
    coeffs: Seq<int>,
) -> int {
    others_weighted_sum_upto(indices, own, pre.ask_terms_a@, coeffs, indices.len() as int)
        + coeffs[own_position(indices, own)] * (pre.ask_term_own@ + others_sum_upto(
        indices,
        own,
        pre.ask_terms_sk@,
        indices.len() as int,
    ))
}

/// The part of a full pre-signature that this variant uses has the same
/// share of `beta`.
pub proof fn lemma_beta_share_of_full(
    pre: PerPartyPreSignature,
    full_pre: full::PerPartyPreSignature,
    own: usize,
    indices: Seq<usize>,
    coeffs: Seq<int>,
)
    requires
        pre.ask_term_own == full_pre.ask_term_own,
        pre.ask_terms_a@ == full_pre.ask_terms_a@,
        pre.ask_terms_sk@ == full_pre.ask_terms_sk@,
    ensures
        beta_share_value(pre, own, indices, coeffs) == ask_share_value(full_pre, own, indices, coeffs),
{
}

/// A copy of a vector of field elements.
fn copy_scalars(v: &Vec<Scalar>) -> (r: Vec<Scalar>)
    ensures
        r@ == v@,
{
    let mut r: Vec<Scalar> = Vec::new();
    for i in 0..v.len()
        invariant
            r@ == v@.take(i as int),
    {
        r.push(v[i]);
        proof {
            assert(v@.take(i + 1) =~= v@.take(i as int).push(v@[i as int]));
        }
    }
    proof {
        assert(v@.take(v.len() as int) =~= v@);
    }
    r
}

impl PerPartyPreSignature {
    /// The part of a full pre-signature (as the dealer makes them) that this variant uses.
    pub fn from_full(pre: &full::PerPartyPreSignature) -> (r: Self)
        ensures
            r.a_share == pre.a_share,
            r.ask_term_own == pre.ask_term_own,
            r.ask_terms_a@ == pre.ask_terms_a@,
            r.ask_terms_sk@ == pre.ask_terms_sk@,
    {
        PerPartyPreSignature {
            a_share: pre.a_share,
            ask_term_own: pre.ask_term_own,
            ask_terms_a: copy_scalars(&pre.ask_terms_a),
            ask_terms_sk: copy_scalars(&pre.ask_terms_sk),
        }
    }
}

impl PerPartyPrecomputations {
    /// The part of a party's full precomputation that this variant uses.
    pub fn from_full(parts: &full::PerPartyPrecomputations) -> (r: Self)
        ensures
            r.index == parts.index,
            r.sk_share == parts.sk_share,
            r.pre_signatures.len() == parts.pre_signatures.len(),
            forall|i: int|
                0 <= i < parts.pre_signatures.len() ==> {
                    &&& (#[trigger] r.pre_signatures[i]).a_share == parts.pre_signatures[i].a_share
                    &&& r.pre_signatures[i].ask_term_own == parts.pre_signatures[i].ask_term_own
                    &&& r.pre_signatures[i].ask_terms_a@ == parts.pre_signatures[i].ask_terms_a@
                    &&& r.pre_signatures[i].ask_terms_sk@ == parts.pre_signatures[i].ask_terms_sk@
                },
    {
        let mut pre_signatures: Vec<PerPartyPreSignature> = Vec::new();
        for i in 0..parts.pre_signatures.len()
            invariant
                pre_signatures.len() == i,
                forall|j: int|
                    0 <= j < i ==> {
                        &&& (#[trigger] pre_signatures[j]).a_share == parts.pre_signatures[j].a_share
                        &&& pre_signatures[j].ask_term_own == parts.pre_signatures[j].ask_term_own
                        &&& pre_signatures[j].ask_terms_a@ == parts.pre_signatures[j].ask_terms_a@
                        &&& pre_signatures[j].ask_terms_sk@ == parts.pre_signatures[j].ask_terms_sk@
                    },
        {
            pre_signatures.push(PerPartyPreSignature::from_full(&parts.pre_signatures[i]));
        }
        PerPartyPrecomputations { index: parts.index, sk_share: parts.sk_share, pre_signatures }
    }
}

/// A pre-signature made ready for one signer set: shares of `a` and of
/// `beta = a * sk`.
pub struct LivePreSignature {
    pub a_share: Scalar,
    pub beta_share: Scalar,
}

/// Every signer other than `own` names an entry of both `a * sk` cross-term
/// vectors, and has a coefficient, as has `own` itself.
pub open spec fn beta_inputs_in_range(
    own: usize,
    indices: Seq<usize>,
    pre: PerPartyPreSignature,
    coeff_count: nat,
) -> bool {
    &&& forall|q: int|
        0 <= q < indices.len() && #[trigger] indices[q] != own ==> {
            &&& 1 <= indices[q]
            &&& indices[q] <= pre.ask_terms_a.len()
            &&& indices[q] <= pre.ask_terms_sk.len()
            &&& q < coeff_count
        }
    &&& own_position(indices, own) < coeff_count
}

impl LivePreSignature {
    /// The live pre-signature of party `own_index` for the signer set
    /// `indices`, with the Lagrange coefficients for an interpolation to zero.
    pub fn from_presignature(
        own_index: usize,
        indices: &Vec<usize>,
        pre_signature: &PerPartyPreSignature,
    ) -> (r: Self)
        requires
            beta_inputs_in_range(own_index, indices@, *pre_signature, indices.len() as nat),
        ensures
            r.a_share == pre_signature.a_share,
            r.beta_share@ == modr(
                beta_share_value(
                    *pre_signature,
                    own_index,
                    indices@,
                    lagrange_zero_coefficients(indices@),
                ),
            ),
    {
        let lagrange_coefficients = get_0_lagrange_coefficient_set_fr(indices);
        Self::from_presignature_with_coefficients(
            own_index,
            indices,
            pre_signature,
            &lagrange_coefficients,
        )
    }

    /// The live pre-signature of party `own_index` for the signer set
    /// `indices`, with the given coefficient for each signer.
    pub fn from_presignature_with_coefficients(
        own_index: usize,
        indices: &Vec<usize>,
        pre_signature: &PerPartyPreSignature,
        lagrange_coefficients: &Vec<Scalar>,
    ) -> (r: Self)
        requires
            beta_inputs_in_range(
                own_index,
                indices@,
                *pre_signature,
                lagrange_coefficients.len() as nat,
            ),
        ensures
            r.a_share == pre_signature.a_share,
            r.beta_share@ == modr(
                beta_share_value(
                    *pre_signature,
                    own_index,
                    indices@,
                    lagrange_coefficients@.map_values(|c: Scalar| c@ as int),
                ),
            ),
    {
        let ghost idx = indices@;
        let ghost coeffs = lagrange_coefficients@.map_values(|c: Scalar| c@ as int);
        let ghost pre = *pre_signature;
        let mut ask_share = Scalar::zero();
        let mut tmp_ask_own_coefficient = pre_signature.ask_term_own;
        let mut ind_i: usize = 0;
        proof {
            lemma_modr_small(pre.ask_term_own@ as int);
            assert(idx.take(0) =~= Seq::<usize>::empty());
        }
        for ind_j in 0..indices.len()
            invariant
                idx == indices@,
                pre == *pre_signature,
                coeffs == lagrange_coefficients@.map_values(|c: Scalar| c@ as int),
                beta_inputs_in_range(own_index, idx, pre, lagrange_coefficients.len() as nat),
                ask_share@ == modr(
                    others_weighted_sum_upto(idx, own_index, pre.ask_terms_a@, coeffs, ind_j as int),
                ),
                tmp_ask_own_coefficient@ == modr(
                    pre.ask_term_own@ + others_sum_upto(idx, own_index, pre.ask_terms_sk@, ind_j as int),
                ),
                ind_i == own_position(idx.take(ind_j as int), own_index),
        {
            let el_j = indices[ind_j];
            proof {
                assert(idx.take(ind_j + 1).drop_last() =~= idx.take(ind_j as int));
            }
            let ghost q = ind_j as int;
            let ghost w0 = others_weighted_sum_upto(idx, own_index, pre.ask_terms_a@, coeffs, q);
            let ghost sk0 = others_sum_upto(idx, own_index, pre.ask_terms_sk@, q);
            if el_j != own_index {
                let tmp = scalar_mul(&pre_signature.ask_terms_a[el_j - 1], &lagrange_coefficients[ind_j]);
                ask_share = scalar_add(&ask_share, &tmp);
                tmp_ask_own_coefficient = scalar_add(
                    &tmp_ask_own_coefficient,
                    &pre_signature.ask_terms_sk[el_j - 1],
                );
                proof {
                    let x = pre.ask_terms_a@[el_j - 1]@ as int;
                    let c = coeffs[q];
                    assert(other_term(idx, own_index, pre.ask_terms_a@, q) == x);
                    assert(others_weighted_sum_upto(idx, own_index, pre.ask_terms_a@, coeffs, q + 1)
                        == w0 + x * c);
                    lemma_modr_add(w0, x * c);
                    lemma_modr_mul(x, c);
                    lemma_modr_add(pre.ask_term_own@ + sk0, pre.ask_terms_sk@[el_j - 1]@ as int);
                }
            } else {
                ind_i = ind_j;
                proof {
                    assert(other_term(idx, own_index, pre.ask_terms_a@, q) == 0);
                    assert(others_weighted_sum_upto(idx, own_index, pre.ask_terms_a@, coeffs, q + 1)
                        == w0 + 0 * coeffs[q]);
                }
            }
        }
        proof {
            assert(idx.take(idx.len() as int) =~= idx);
        }
        let own_coefficient = lagrange_coefficients[ind_i];
        tmp_ask_own_coefficient = scalar_mul(&tmp_ask_own_coefficient, &own_coefficient);
        let ghost w = others_weighted_sum_upto(idx, own_index, pre.ask_terms_a@, coeffs, idx.len() as int);
        let ghost o = pre.ask_term_own@ + others_sum_upto(idx, own_index, pre.ask_terms_sk@, idx.len() as int);
        ask_share = scalar_add(&ask_share, &tmp_ask_own_coefficient);
        proof {
            let c = coeffs[ind_i as int];
            lemma_modr_mul(o, c);
            lemma_modr_add(w, o * c);
            assert(o * c == c * o) by (nonlinear_arith);
        }
        LivePreSignature { a_share: pre_signature.a_share, beta_share: ask_share }
    }
}

} // verus!
