//! How the live pre-signatures of a signer set combine: their shares of `a`
//! and `e` add up to `a` and `e`, and their shares of `delta` to
//! `a * (e + sk')`, where `sk'` is the coefficient-weighted sum of the
//! signers' key shares (the secret key, for Lagrange coefficients).
use crate::fhks_bbs_plus::partial_threshold_signature::PartialThresholdSignature;
use crate::curve::g1_point;
use crate::fhks_bbs_plus::keys::{lemma_message_log_bound, message_log, PublicKey};
use crate::fhks_bbs_plus::threshold_signature::{
    combines_points, delta_sum, e_sum, lemma_signed_log_sum, log_sum, signed_log, signs,
    ThresholdSignature,
};
use crate::fhks_bbs_plus::precomputation::{
    ae_share_value, ask_share_value, correlated_with, is_correlated_pre_signature, key_shares, live_delta,
    live_inputs_in_range, other_term, own_position,
    PerPartyPrecomputations, PerPartyPreSignature,
};
use crate::helpers::ole_correlation::{is_ole_pair, is_ole_table, is_vole_table};
use crate::helpers::secret_sharing::{
    distinct_positions, is_shamir_sharing, lagrange_coefficient, lagrange_zero_coefficients,
    lemma_shamir_reconstruction,
};
use crate::field::{
    Scalar, fadd, field_order, finv, fmul, lemma_modr_small, lemma_modr_add, lemma_modr_idem, lemma_modr_mul,
    lemma_scalar_in_field, modr,
};
use crate::summation::{
    double_sum, lemma_double_sum_add, lemma_double_sum_congruent, lemma_double_sum_product,
    lemma_double_sum_swap, lemma_sum_add, lemma_sum_congruent, lemma_sum_ext, lemma_sum_scale,
    lemma_sum_single, row_sum, sum_range,
};
use vstd::prelude::*;

verus! {

broadcast use lemma_scalar_in_field;

/// `indices` names distinct parties among `1..=n`.
pub open spec fn is_signer_set(indices: Seq<usize>, n: nat) -> bool {
    &&& indices.no_duplicates()
    &&& forall|p: int| 0 <= p < indices.len() ==> 1 <= #[trigger] indices[p] <= n
}

/// Every party holds pre-signature number `i_k`, and these pre-signatures
/// are correlated with one another.
pub open spec fn is_consistent_precomputation(parties: Seq<PerPartyPrecomputations>, i_k: int) -> bool {
    forall|i: int|
        0 <= i < parties.len() ==> i_k < (#[trigger] parties[i]).pre_signatures.len()
            && is_correlated_pre_signature(parties, i_k, i, parties.len())
}

/// A signer's pre-signature holds its own products `a_i * e_i` and
/// `a_i * sk_i`, and an entry of each cross-term vector for each of the `n` parties.
pub open spec fn own_products_hold(pre: PerPartyPreSignature, sk: Scalar, n: nat) -> bool {
    &&& pre.ae_terms_a.len() == n
    &&& pre.ae_terms_e.len() == n
    &&& pre.ask_terms_a.len() == n
    &&& pre.ask_terms_sk.len() == n
    &&& pre.ae_term_own@ == fmul(pre.a_share@ as int, pre.e_share@ as int)
    &&& pre.ask_term_own@ == fmul(pre.a_share@ as int, sk@ as int)
}

/// The pre-signatures `pi` of party `i` and `pj` of party `j` hold the two
/// shares of `a_i * e_j` and of `a_i * sk_j`.
pub open spec fn cross_products_hold(
    pi: PerPartyPreSignature,
    pj: PerPartyPreSignature,
    i: int,
    j: int,
    sk_j: Scalar,
) -> bool {
    &&& fadd(pi.ae_terms_a[j]@ as int, pj.ae_terms_e[i]@ as int) == fmul(
        pi.a_share@ as int,
        pj.e_share@ as int,
    )
    &&& fadd(pi.ask_terms_a[j]@ as int, pj.ask_terms_sk[i]@ as int) == fmul(
        pi.a_share@ as int,
        sk_j@ as int,
    )
}

/// Pre-signature number `i_k` of each signer in `indices` holds its own
/// products, and any two signers' pre-signatures hold the shares of their
/// cross products: what the signers need of the precomputation.
pub open spec fn signers_consistent(
    parties: Seq<PerPartyPrecomputations>,
    i_k: int,
    indices: Seq<usize>,
) -> bool {
    &&& forall|p: int|
        0 <= p < indices.len() ==> own_products_hold(
            #[trigger] signer_pre(parties, i_k, indices, p),
            parties[indices[p] - 1].sk_share,
            parties.len(),
        )
    &&& forall|p: int, q: int|
        0 <= p < indices.len() && 0 <= q < indices.len() && p != q ==> cross_products_hold(
            #[trigger] signer_pre(parties, i_k, indices, p),
            #[trigger] signer_pre(parties, i_k, indices, q),
            indices[p] - 1,
            indices[q] - 1,
            parties[indices[q] - 1].sk_share,
        )
}

/// A precomputation in which all parties are correlated is consistent for
/// every signer set.
pub proof fn lemma_signers_consistent(
    parties: Seq<PerPartyPrecomputations>,
    i_k: int,
    indices: Seq<usize>,
)
    requires
        is_consistent_precomputation(parties, i_k),
        is_signer_set(indices, parties.len()),
    ensures
        signers_consistent(parties, i_k, indices),
{
    let n = parties.len();
    assert forall|p: int| 0 <= p < indices.len() implies own_products_hold(
        #[trigger] signer_pre(parties, i_k, indices, p),
        parties[indices[p] - 1].sk_share,
        n,
    ) by {
        assert(is_correlated_pre_signature(parties, i_k, indices[p] - 1, n));
    }
    assert forall|p: int, q: int|
        0 <= p < indices.len() && 0 <= q < indices.len() && p != q implies cross_products_hold(
        #[trigger] signer_pre(parties, i_k, indices, p),
        #[trigger] signer_pre(parties, i_k, indices, q),
        indices[p] - 1,
        indices[q] - 1,
        parties[indices[q] - 1].sk_share,
    ) by {
        let i = indices[p] - 1;
        let j = indices[q] - 1;
        assert(is_correlated_pre_signature(parties, i_k, i, n));
        assert(correlated_with(
            parties[i].pre_signatures@[i_k],
            parties[j].pre_signatures@[i_k],
            i,
            j,
            parties[j].sk_share,
        ));
    }
}

/// Pre-signature number `i_k` of the signer at position `p` of `indices`.
pub open spec fn signer_pre(
    parties: Seq<PerPartyPrecomputations>,
    i_k: int,
    indices: Seq<usize>,
    p: int,
) -> PerPartyPreSignature {
    parties[indices[p] - 1].pre_signatures@[i_k]
}

/// `a`: the sum of the signers' shares of `a`.
pub open spec fn signers_a(parties: Seq<PerPartyPrecomputations>, i_k: int, indices: Seq<usize>) -> int {
    sum_range(indices.len() as int, |p: int| signer_pre(parties, i_k, indices, p).a_share@ as int)
}

/// `e`: the sum of the signers' shares of `e`.
pub open spec fn signers_e(parties: Seq<PerPartyPrecomputations>, i_k: int, indices: Seq<usize>) -> int {
    sum_range(indices.len() as int, |p: int| signer_pre(parties, i_k, indices, p).e_share@ as int)
}

/// `sk'`: the signers' key shares, weighted with their coefficients.
pub open spec fn signers_weighted_key(
    parties: Seq<PerPartyPrecomputations>,
    indices: Seq<usize>,
    coeffs: Seq<int>,
) -> int {
    sum_range(indices.len() as int, |p: int| coeffs[p] * parties[indices[p] - 1].sk_share@)
}

/// The sum of the signers' live shares of `delta`.
pub open spec fn signers_delta(
    parties: Seq<PerPartyPrecomputations>,
    i_k: int,
    indices: Seq<usize>,
    coeffs: Seq<int>,
) -> int {
    sum_range(
        indices.len() as int,
        |p: int| live_delta(signer_pre(parties, i_k, indices, p), indices[p], indices, coeffs),
    )
}

/// In a list without duplicates, the last position of an entry is its only position.
pub proof fn lemma_own_position(indices: Seq<usize>, p: int)
    requires
        indices.no_duplicates(),
        0 <= p < indices.len(),
    ensures
        own_position(indices, indices[p]) == p,
    decreases indices.len(),
{
    if p < indices.len() - 1 {
        let d = indices.drop_last();
        assert(d[p] == indices[p]);
        lemma_own_position(d, p);
    }
}

/// Each signer's pre-signature from a consistent signer set can be made
/// live for a signer set, with one coefficient per signer.
pub proof fn lemma_live_inputs_in_range(
    parties: Seq<PerPartyPrecomputations>,
    i_k: int,
    indices: Seq<usize>,
    p: int,
)
    requires
        signers_consistent(parties, i_k, indices),
        is_signer_set(indices, parties.len()),
        0 <= p < indices.len(),
    ensures
        live_inputs_in_range(
            indices[p],
            indices,
            signer_pre(parties, i_k, indices, p),
            indices.len(),
        ),
{
    assert(own_products_hold(
        signer_pre(parties, i_k, indices, p),
        parties[indices[p] - 1].sk_share,
        parties.len(),
    ));
    lemma_own_position(indices, p);
}

/// The cross term of the signers at positions `p` and `q` in the shares of `a * e`.
pub open spec fn ae_pair_term(
    parties: Seq<PerPartyPrecomputations>,
    i_k: int,
    indices: Seq<usize>,
    p: int,
    q: int,
) -> int {
    let pp = signer_pre(parties, i_k, indices, p);
    let pq = signer_pre(parties, i_k, indices, q);
    if p == q {
        pp.ae_term_own@ as int
    } else {
        pp.ae_terms_a[indices[q] - 1]@ as int + pq.ae_terms_e[indices[p] - 1]@ as int
    }
}

/// The cross term of the signers at positions `p` and `q` in the weighted shares of `a * sk'`.
pub open spec fn ask_pair_term(
    parties: Seq<PerPartyPrecomputations>,
    i_k: int,
    indices: Seq<usize>,
    coeffs: Seq<int>,
    p: int,
    q: int,
) -> int {
    let pp = signer_pre(parties, i_k, indices, p);
    let pq = signer_pre(parties, i_k, indices, q);
    if p == q {
        coeffs[p] * pp.ask_term_own@
    } else {
        pp.ask_terms_a[indices[q] - 1]@ * coeffs[q] + coeffs[q] * pq.ask_terms_sk[indices[p] - 1]@
    }
}

/// A sum over the signers other than `own`, in terms of positions.
proof fn lemma_other_term(indices: Seq<usize>, p: int, q: int, terms: Seq<crate::field::Scalar>)
    requires
        indices.no_duplicates(),
        0 <= p < indices.len(),
        0 <= q < indices.len(),
    ensures
        other_term(indices, indices[p], terms, q) == if p == q {
            0
        } else {
            terms[indices[q] - 1]@ as int
        },
{
}

/// The signers' shares of `a * e` add up to the double sum of the cross terms.
proof fn lemma_ae_shares_sum(
    parties: Seq<PerPartyPrecomputations>,
    i_k: int,
    indices: Seq<usize>,
)
    requires
        indices.no_duplicates(),
    ensures
        sum_range(
            indices.len() as int,
            |p: int| ae_share_value(signer_pre(parties, i_k, indices, p), indices[p], indices),
        ) == double_sum(indices.len() as int, |p: int, q: int| ae_pair_term(parties, i_k, indices, p, q)),
{
    let m = indices.len() as int;
    let pre = |p: int| signer_pre(parties, i_k, indices, p);
    let own = |p: int| pre(p).ae_term_own@ as int;
    let x = |p: int, q: int| other_term(indices, indices[p], pre(p).ae_terms_a@, q);
    let y = |p: int, q: int| other_term(indices, indices[p], pre(p).ae_terms_e@, q);
    let d = |p: int, q: int| if p == q { own(p) } else { 0 };
    let y_swapped = |p: int, q: int| y(q, p);
    // each share: own + row of x + row of y
    assert forall|p: int| 0 <= p < m implies #[trigger] ae_share_value(pre(p), indices[p], indices)
        == row_sum(m, d, p) + row_sum(m, x, p) + row_sum(m, y, p) by {
        lemma_sum_single(m, p, own(p), |q: int| d(p, q));
        lemma_sum_ext(
            m,
            |q: int| other_term(indices, indices[p], pre(p).ae_terms_a@, q),
            |q: int| x(p, q),
        );
        lemma_sum_ext(
            m,
            |q: int| other_term(indices, indices[p], pre(p).ae_terms_e@, q),
            |q: int| y(p, q),
        );
    }
    let rd = |p: int| row_sum(m, d, p);
    let rx = |p: int| row_sum(m, x, p);
    let ry = |p: int| row_sum(m, y, p);
    let rdx = |p: int| rd(p) + rx(p);
    lemma_sum_add(
        m,
        |p: int| ae_share_value(signer_pre(parties, i_k, indices, p), indices[p], indices),
        rdx,
        ry,
    );
    lemma_sum_add(m, rdx, rd, rx);
    // swap y
    lemma_double_sum_swap(m, y);
    lemma_double_sum_ext(m, |p: int, q: int| y(q, p), y_swapped);
    // the pair terms are d + x + swapped y
    let dx = |p: int, q: int| d(p, q) + x(p, q);
    lemma_double_sum_add(m, dx, d, x);
    let pair = |p: int, q: int| ae_pair_term(parties, i_k, indices, p, q);
    assert forall|p: int, q: int| 0 <= p < m && 0 <= q < m implies #[trigger] pair(p, q) == dx(p, q)
        + y_swapped(p, q) by {
        lemma_other_term(indices, p, q, pre(p).ae_terms_a@);
        lemma_other_term(indices, q, p, pre(q).ae_terms_e@);
    }
    lemma_double_sum_add(m, pair, dx, y_swapped);
}

/// The signers' shares of `a * sk'` add up to the double sum of the cross terms.
proof fn lemma_ask_shares_sum(
    parties: Seq<PerPartyPrecomputations>,
    i_k: int,
    indices: Seq<usize>,
    coeffs: Seq<int>,
)
    requires
        indices.no_duplicates(),
    ensures
        sum_range(
            indices.len() as int,
            |p: int|
                ask_share_value(signer_pre(parties, i_k, indices, p), indices[p], indices, coeffs),
        ) == double_sum(
            indices.len() as int,
            |p: int, q: int| ask_pair_term(parties, i_k, indices, coeffs, p, q),
        ),
{
    let m = indices.len() as int;
    let pre = |p: int| signer_pre(parties, i_k, indices, p);
    let own = |p: int| coeffs[p] * pre(p).ask_term_own@;
    let x = |p: int, q: int| other_term(indices, indices[p], pre(p).ask_terms_a@, q) * coeffs[q];
    let y = |p: int, q: int| coeffs[p] * other_term(indices, indices[p], pre(p).ask_terms_sk@, q);
    let d = |p: int, q: int| if p == q { own(p) } else { 0 };
    let y_swapped = |p: int, q: int| y(q, p);
    let rd = |p: int| row_sum(m, d, p);
    let rx = |p: int| row_sum(m, x, p);
    let ry = |p: int| row_sum(m, y, p);
    let rdx = |p: int| rd(p) + rx(p);
    assert forall|p: int| 0 <= p < m implies #[trigger] ask_share_value(
        pre(p),
        indices[p],
        indices,
        coeffs,
    ) == rdx(p) + ry(p) by {
        lemma_own_position(indices, p);
        lemma_sum_single(m, p, own(p), |q: int| d(p, q));
        lemma_sum_ext(
            m,
            |q: int| other_term(indices, indices[p], pre(p).ask_terms_a@, q) * coeffs[q],
            |q: int| x(p, q),
        );
        let sk_terms = |q: int| other_term(indices, indices[p], pre(p).ask_terms_sk@, q);
        lemma_sum_scale(m, |q: int| y(p, q), coeffs[p], sk_terms);
        let o = pre(p).ask_term_own@ as int;
        let s = sum_range(m, sk_terms);
        assert(coeffs[p] * (o + s) == coeffs[p] * o + coeffs[p] * s) by (nonlinear_arith);
    }
    lemma_sum_add(
        m,
        |p: int|
            ask_share_value(signer_pre(parties, i_k, indices, p), indices[p], indices, coeffs),
        rdx,
        ry,
    );
    lemma_sum_add(m, rdx, rd, rx);
    lemma_double_sum_swap(m, y);
    lemma_double_sum_ext(m, |p: int, q: int| y(q, p), y_swapped);
    let dx = |p: int, q: int| d(p, q) + x(p, q);
    lemma_double_sum_add(m, dx, d, x);
    let pair = |p: int, q: int| ask_pair_term(parties, i_k, indices, coeffs, p, q);
    assert forall|p: int, q: int| 0 <= p < m && 0 <= q < m implies #[trigger] pair(p, q) == dx(p, q)
        + y_swapped(p, q) by {
        lemma_other_term(indices, p, q, pre(p).ask_terms_a@);
        lemma_other_term(indices, q, p, pre(q).ask_terms_sk@);
    }
    lemma_double_sum_add(m, pair, dx, y_swapped);
}

/// Each cross term is congruent to the product it shares.
proof fn lemma_pair_terms(
    parties: Seq<PerPartyPrecomputations>,
    i_k: int,
    indices: Seq<usize>,
    coeffs: Seq<int>,
    p: int,
    q: int,
)
    requires
        signers_consistent(parties, i_k, indices),
        is_signer_set(indices, parties.len()),
        0 <= p < indices.len(),
        0 <= q < indices.len(),
    ensures
        modr(ae_pair_term(parties, i_k, indices, p, q)) == modr(
            signer_pre(parties, i_k, indices, p).a_share@ as int * signer_pre(
                parties,
                i_k,
                indices,
                q,
            ).e_share@ as int,
        ),
        modr(ask_pair_term(parties, i_k, indices, coeffs, p, q)) == modr(
            signer_pre(parties, i_k, indices, p).a_share@ as int * (coeffs[q]
                * parties[indices[q] - 1].sk_share@),
        ),
{
    let n = parties.len();
    let i = indices[p] - 1;
    let j = indices[q] - 1;
    let pi = signer_pre(parties, i_k, indices, p);
    let pj = signer_pre(parties, i_k, indices, q);
    let a = pi.a_share@ as int;
    let c = coeffs[q];
    let sk = parties[j].sk_share@ as int;
    assert(own_products_hold(pi, parties[i].sk_share, n));
    if p == q {
        lemma_modr_idem(a * pj.e_share@ as int);
        lemma_modr_mul(c, a * sk);
        assert(c * (a * sk) == a * (c * sk)) by (nonlinear_arith);
    } else {
        assert(cross_products_hold(pi, pj, i, j, parties[j].sk_share));
        let x = pi.ask_terms_a[j]@ as int;
        let y = pj.ask_terms_sk[i]@ as int;
        assert(x * c + c * y == (x + y) * c) by (nonlinear_arith);
        lemma_modr_mul(x + y, c);
        lemma_modr_mul(a * sk, c);
        assert((a * sk) * c == a * (c * sk)) by (nonlinear_arith);
    }
}

/// The live shares of `delta` of a signer set add up to `a * (e + sk')`,
/// where `a` and `e` are the sums of the signers' shares and `sk'` is the
/// sum of their key shares weighted with their coefficients.  With the
/// Lagrange coefficients of the signer set, `sk'` is the secret key.
pub proof fn lemma_delta_shares_combine(
    parties: Seq<PerPartyPrecomputations>,
    i_k: int,
    indices: Seq<usize>,
    coeffs: Seq<int>,
)
    requires
        signers_consistent(parties, i_k, indices),
        is_signer_set(indices, parties.len()),
        coeffs.len() == indices.len(),
    ensures
        modr(signers_delta(parties, i_k, indices, coeffs)) == fmul(
            signers_a(parties, i_k, indices),
            signers_e(parties, i_k, indices) + signers_weighted_key(parties, indices, coeffs),
        ),
{
    let m = indices.len() as int;
    let pre = |p: int| signer_pre(parties, i_k, indices, p);
    let ae = |p: int| ae_share_value(signer_pre(parties, i_k, indices, p), indices[p], indices);
    let ask = |p: int|
        ask_share_value(signer_pre(parties, i_k, indices, p), indices[p], indices, coeffs);
    let delta = |p: int|
        live_delta(signer_pre(parties, i_k, indices, p), indices[p], indices, coeffs);
    let both = |p: int| ae(p) + ask(p);
    // reduce each share only at the end
    assert forall|p: int| 0 <= p < m implies #[trigger] modr(delta(p)) == modr(both(p)) by {
        lemma_modr_idem(both(p));
    }
    lemma_sum_congruent(m, delta, both);
    lemma_sum_add(m, both, ae, ask);
    lemma_ae_shares_sum(parties, i_k, indices);
    lemma_ask_shares_sum(parties, i_k, indices, coeffs);
    // each cross term is congruent to the product it shares
    let a = |p: int| signer_pre(parties, i_k, indices, p).a_share@ as int;
    let e = |p: int| signer_pre(parties, i_k, indices, p).e_share@ as int;
    let k = |p: int| coeffs[p] * parties[indices[p] - 1].sk_share@;
    let ae_pairs = |p: int, q: int| ae_pair_term(parties, i_k, indices, p, q);
    let ask_pairs = |p: int, q: int| ask_pair_term(parties, i_k, indices, coeffs, p, q);
    let ae_products = |p: int, q: int| a(p) * e(q);
    let ask_products = |p: int, q: int| a(p) * k(q);
    assert forall|p: int, q: int| 0 <= p < m && 0 <= q < m implies #[trigger] modr(ae_pairs(p, q))
        == modr(ae_products(p, q)) by {
        lemma_pair_terms(parties, i_k, indices, coeffs, p, q);
    }
    assert forall|p: int, q: int| 0 <= p < m && 0 <= q < m implies #[trigger] modr(ask_pairs(p, q))
        == modr(ask_products(p, q)) by {
        lemma_pair_terms(parties, i_k, indices, coeffs, p, q);
    }
    lemma_double_sum_congruent(m, ae_pairs, ae_products);
    lemma_double_sum_congruent(m, ask_pairs, ask_products);
    lemma_double_sum_product(m, a, e);
    lemma_double_sum_product(m, a, k);
    let sa = sum_range(m, a);
    let se = sum_range(m, e);
    let sk = sum_range(m, k);
    let dae = double_sum(m, ae_pairs);
    let dask = double_sum(m, ask_pairs);
    lemma_modr_add(dae, dask);
    lemma_modr_add(sa * se, sa * sk);
    assert(sa * se + sa * sk == sa * (se + sk)) by (nonlinear_arith);
    assert(modr(sum_range(m, delta)) == modr(dae + dask));
}

/// The OLE tables of the dealer already combine as the live shares do: over
/// a signer set, the sums of both shares of all `a_i * e_j` add up to
/// `a * e`, and those of all `a_i * sk_j`, weighted with `j`'s coefficient,
/// to `a * sk'`.
pub proof fn lemma_ole_tables_combine(
    n: nat,
    k: nat,
    a_shares: Seq<Vec<Scalar>>,
    e_shares: Seq<Vec<Scalar>>,
    sk_shares: Seq<Scalar>,
    ae_terms: Seq<Vec<Vec<(Scalar, Scalar)>>>,
    ask_terms: Seq<Vec<Vec<(Scalar, Scalar)>>>,
    i_k: int,
    indices: Seq<usize>,
    coeffs: Seq<int>,
)
    requires
        is_ole_table(ae_terms, n, k, a_shares, e_shares),
        is_vole_table(ask_terms, n, k, a_shares, sk_shares),
        0 <= i_k < k,
        forall|p: int| 0 <= p < indices.len() ==> 1 <= #[trigger] indices[p] <= n,
        coeffs.len() == indices.len(),
    ensures
        modr(
            double_sum(
                indices.len() as int,
                |p: int, q: int|
                    ae_terms[i_k][indices[p] - 1][indices[q] - 1].0@ as int
                        + ae_terms[i_k][indices[p] - 1][indices[q] - 1].1@ as int,
            ),
        ) == fmul(
            sum_range(indices.len() as int, |p: int| a_shares[i_k][indices[p] - 1]@ as int),
            sum_range(indices.len() as int, |q: int| e_shares[i_k][indices[q] - 1]@ as int),
        ),
        modr(
            double_sum(
                indices.len() as int,
                |p: int, q: int|
                    (ask_terms[i_k][indices[p] - 1][indices[q] - 1].0@
                        + ask_terms[i_k][indices[p] - 1][indices[q] - 1].1@) * coeffs[q],
            ),
        ) == fmul(
            sum_range(indices.len() as int, |p: int| a_shares[i_k][indices[p] - 1]@ as int),
            sum_range(indices.len() as int, |q: int| coeffs[q] * sk_shares[indices[q] - 1]@),
        ),
{
    let m = indices.len() as int;
    let a = |p: int| a_shares[i_k][indices[p] - 1]@ as int;
    let e = |q: int| e_shares[i_k][indices[q] - 1]@ as int;
    let w = |q: int| coeffs[q] * sk_shares[indices[q] - 1]@;
    let ae_sums = |p: int, q: int|
        ae_terms[i_k][indices[p] - 1][indices[q] - 1].0@ as int
            + ae_terms[i_k][indices[p] - 1][indices[q] - 1].1@ as int;
    let ask_sums = |p: int, q: int|
        (ask_terms[i_k][indices[p] - 1][indices[q] - 1].0@
            + ask_terms[i_k][indices[p] - 1][indices[q] - 1].1@) * coeffs[q];
    assert forall|p: int, q: int| 0 <= p < m && 0 <= q < m implies #[trigger] modr(ae_sums(p, q))
        == modr(a(p) * e(q)) by {
        assert(is_ole_pair(
            ae_terms[i_k][indices[p] - 1][indices[q] - 1],
            a_shares[i_k][indices[p] - 1],
            e_shares[i_k][indices[q] - 1],
        ));
    }
    assert forall|p: int, q: int| 0 <= p < m && 0 <= q < m implies #[trigger] modr(ask_sums(p, q))
        == modr(a(p) * w(q)) by {
        let pair = ask_terms[i_k][indices[p] - 1][indices[q] - 1];
        assert(is_ole_pair(pair, a_shares[i_k][indices[p] - 1], sk_shares[indices[q] - 1]));
        let s = pair.0@ as int + pair.1@ as int;
        let sk = sk_shares[indices[q] - 1]@ as int;
        lemma_modr_mul(s, coeffs[q]);
        lemma_modr_mul(a(p) * sk, coeffs[q]);
        assert((a(p) * sk) * coeffs[q] == a(p) * (coeffs[q] * sk)) by (nonlinear_arith);
    }
    lemma_double_sum_congruent(m, ae_sums, |p: int, q: int| a(p) * e(q));
    lemma_double_sum_congruent(m, ask_sums, |p: int, q: int| a(p) * w(q));
    lemma_double_sum_product(m, a, e);
    lemma_double_sum_product(m, a, w);
}

/// Partial signatures that carry the signers' live shares combine, in
/// `ThresholdSignature::from_partial_signatures`, into `delta = a * (e + sk')`
/// and into the sum `e` of the shares of `e`.
pub proof fn lemma_partial_signatures_combine(
    parties: Seq<PerPartyPrecomputations>,
    i_k: int,
    indices: Seq<usize>,
    coeffs: Seq<int>,
    partials: Seq<PartialThresholdSignature>,
)
    requires
        signers_consistent(parties, i_k, indices),
        is_signer_set(indices, parties.len()),
        coeffs.len() == indices.len(),
        partials.len() == indices.len(),
        forall|p: int|
            0 <= p < indices.len() ==> (#[trigger] partials[p]).delta_share@ == live_delta(
                signer_pre(parties, i_k, indices, p),
                indices[p],
                indices,
                coeffs,
            ) && partials[p].e_share == signer_pre(parties, i_k, indices, p).e_share,
    ensures
        modr(delta_sum(partials, partials.len() as int)) == fmul(
            signers_a(parties, i_k, indices),
            signers_e(parties, i_k, indices) + signers_weighted_key(parties, indices, coeffs),
        ),
        e_sum(partials, partials.len() as int) == signers_e(parties, i_k, indices),
{
    let m = indices.len() as int;
    lemma_sum_ext(
        m,
        |i: int| partials[i].delta_share@ as int,
        |p: int| live_delta(signer_pre(parties, i_k, indices, p), indices[p], indices, coeffs),
    );
    lemma_sum_ext(
        m,
        |i: int| partials[i].e_share@ as int,
        |p: int| signer_pre(parties, i_k, indices, p).e_share@ as int,
    );
    lemma_delta_shares_combine(parties, i_k, indices, coeffs);
}

/// Double sums of functions that agree on the square are equal.
proof fn lemma_double_sum_ext(n: int, f: spec_fn(int, int) -> int, g: spec_fn(int, int) -> int)
    requires
        forall|p: int, q: int| 0 <= p < n && 0 <= q < n ==> #[trigger] f(p, q) == g(p, q),
    ensures
        double_sum(n, f) == double_sum(n, g),
{
    assert forall|p: int| 0 <= p < n implies #[trigger] row_sum(n, f, p) == row_sum(n, g, p) by {
        lemma_sum_ext(n, |q: int| f(p, q), |q: int| g(p, q));
    }
    lemma_sum_ext(n, |p: int| row_sum(n, f, p), |p: int| row_sum(n, g, p));
}

/// The signers' shares of `a * e` (the own product plus the shares of all
/// cross products with the other signers) add up to `a * e`.
pub proof fn lemma_ae_shares_combine(
    parties: Seq<PerPartyPrecomputations>,
    i_k: int,
    indices: Seq<usize>,
)
    requires
        signers_consistent(parties, i_k, indices),
        is_signer_set(indices, parties.len()),
    ensures
        modr(
            sum_range(
                indices.len() as int,
                |p: int| ae_share_value(signer_pre(parties, i_k, indices, p), indices[p], indices),
            ),
        ) == fmul(signers_a(parties, i_k, indices), signers_e(parties, i_k, indices)),
{
    let m = indices.len() as int;
    lemma_ae_shares_sum(parties, i_k, indices);
    let a = |p: int| signer_pre(parties, i_k, indices, p).a_share@ as int;
    let e = |p: int| signer_pre(parties, i_k, indices, p).e_share@ as int;
    let ae_pairs = |p: int, q: int| ae_pair_term(parties, i_k, indices, p, q);
    let ae_products = |p: int, q: int| a(p) * e(q);
    assert forall|p: int, q: int| 0 <= p < m && 0 <= q < m implies #[trigger] modr(ae_pairs(p, q))
        == modr(ae_products(p, q)) by {
        lemma_pair_terms(parties, i_k, indices, seq![], p, q);
    }
    lemma_double_sum_congruent(m, ae_pairs, ae_products);
    lemma_double_sum_product(m, a, e);
}

/// The sum of the signers' live shares of `beta = a * sk'` (reduced as the
/// live pre-signatures hold them).
pub open spec fn signers_beta(
    parties: Seq<PerPartyPrecomputations>,
    i_k: int,
    indices: Seq<usize>,
    coeffs: Seq<int>,
) -> int {
    sum_range(
        indices.len() as int,
        |p: int| modr(ask_share_value(signer_pre(parties, i_k, indices, p), indices[p], indices, coeffs)),
    )
}

/// The live shares of `beta` of a signer set add up to `a * sk'`, where `a`
/// is the sum of the signers' shares of `a` and `sk'` the sum of their key
/// shares weighted with their coefficients.
pub proof fn lemma_beta_shares_combine(
    parties: Seq<PerPartyPrecomputations>,
    i_k: int,
    indices: Seq<usize>,
    coeffs: Seq<int>,
)
    requires
        signers_consistent(parties, i_k, indices),
        is_signer_set(indices, parties.len()),
        coeffs.len() == indices.len(),
    ensures
        modr(signers_beta(parties, i_k, indices, coeffs)) == fmul(
            signers_a(parties, i_k, indices),
            signers_weighted_key(parties, indices, coeffs),
        ),
{
    let m = indices.len() as int;
    let ask = |p: int|
        ask_share_value(signer_pre(parties, i_k, indices, p), indices[p], indices, coeffs);
    let beta = |p: int|
        modr(ask_share_value(signer_pre(parties, i_k, indices, p), indices[p], indices, coeffs));
    assert forall|p: int| 0 <= p < m implies #[trigger] modr(beta(p)) == modr(ask(p)) by {
        lemma_modr_idem(ask(p));
    }
    lemma_sum_congruent(m, beta, ask);
    lemma_ask_shares_sum(parties, i_k, indices, coeffs);
    let a = |p: int| signer_pre(parties, i_k, indices, p).a_share@ as int;
    let k = |p: int| coeffs[p] * parties[indices[p] - 1].sk_share@;
    let ask_pairs = |p: int, q: int| ask_pair_term(parties, i_k, indices, coeffs, p, q);
    let ask_products = |p: int, q: int| a(p) * k(q);
    assert forall|p: int, q: int| 0 <= p < m && 0 <= q < m implies #[trigger] modr(ask_pairs(p, q))
        == modr(ask_products(p, q)) by {
        lemma_pair_terms(parties, i_k, indices, coeffs, p, q);
    }
    lemma_double_sum_congruent(m, ask_pairs, ask_products);
    lemma_double_sum_product(m, a, k);
}

/// With the Lagrange coefficients of the signer set, the weighted key shares
/// of a `t`-out-of-`n` sharing add up to the secret key, for `t` or more signers.
proof fn lemma_weighted_key_is_secret(
    parties: Seq<PerPartyPrecomputations>,
    indices: Seq<usize>,
    sk: int,
    poly_coeffs: Seq<int>,
)
    requires
        is_signer_set(indices, parties.len()),
        is_shamir_sharing(sk, key_shares(parties), poly_coeffs),
        poly_coeffs.len() + 1 <= indices.len(),
        distinct_positions(indices),
    ensures
        modr(signers_weighted_key(parties, indices, lagrange_zero_coefficients(indices))) == modr(
            sk,
        ),
{
    let shares = key_shares(parties);
    lemma_shamir_reconstruction(sk, shares, poly_coeffs, indices);
    lemma_sum_ext(
        indices.len() as int,
        |p: int| lagrange_zero_coefficients(indices)[p] * parties[indices[p] - 1].sk_share@,
        |p: int| lagrange_coefficient(indices, indices[p] as int, 0) * shares[indices[p] - 1]@,
    );
}

/// Threshold signing works: for a `t`-out-of-`n` precomputation and a set of
/// at least `t` distinct signers using their Lagrange coefficients, the live
/// shares of `delta` add up to `a * (e + sk)`, with `sk` the shared secret key
/// and `a`, `e` the sums of the signers' shares.
pub proof fn lemma_threshold_delta(
    parties: Seq<PerPartyPrecomputations>,
    i_k: int,
    indices: Seq<usize>,
    sk: int,
    poly_coeffs: Seq<int>,
)
    requires
        signers_consistent(parties, i_k, indices),
        is_signer_set(indices, parties.len()),
        is_shamir_sharing(sk, key_shares(parties), poly_coeffs),
        poly_coeffs.len() + 1 <= indices.len(),
        distinct_positions(indices),
    ensures
        modr(signers_delta(parties, i_k, indices, lagrange_zero_coefficients(indices))) == fmul(
            signers_a(parties, i_k, indices),
            signers_e(parties, i_k, indices) + sk,
        ),
{
    let coeffs = lagrange_zero_coefficients(indices);
    lemma_delta_shares_combine(parties, i_k, indices, coeffs);
    lemma_weighted_key_is_secret(parties, indices, sk, poly_coeffs);
    let a = signers_a(parties, i_k, indices);
    let e = signers_e(parties, i_k, indices);
    let w = signers_weighted_key(parties, indices, coeffs);
    lemma_modr_add(e, w);
    lemma_modr_add(e, sk);
    lemma_modr_mul(a, e + w);
    lemma_modr_mul(a, e + sk);
}

/// For the variant without `e` in the pre-signatures: with the Lagrange
/// coefficients of at least `t` distinct signers, the live shares of `beta`
/// add up to `a * sk`.
pub proof fn lemma_threshold_beta(
    parties: Seq<PerPartyPrecomputations>,
    i_k: int,
    indices: Seq<usize>,
    sk: int,
    poly_coeffs: Seq<int>,
)
    requires
        signers_consistent(parties, i_k, indices),
        is_signer_set(indices, parties.len()),
        is_shamir_sharing(sk, key_shares(parties), poly_coeffs),
        poly_coeffs.len() + 1 <= indices.len(),
        distinct_positions(indices),
    ensures
        modr(signers_beta(parties, i_k, indices, lagrange_zero_coefficients(indices))) == fmul(
            signers_a(parties, i_k, indices),
            sk,
        ),
{
    let coeffs = lagrange_zero_coefficients(indices);
    lemma_beta_shares_combine(parties, i_k, indices, coeffs);
    lemma_weighted_key_is_secret(parties, indices, sk, poly_coeffs);
    let a = signers_a(parties, i_k, indices);
    let w = signers_weighted_key(parties, indices, coeffs);
    lemma_modr_mul(a, w);
    lemma_modr_mul(a, sk);
}

/// Partial signatures made from the live pre-signatures of at least `t`
/// distinct signers with their Lagrange coefficients combine, in
/// `ThresholdSignature::from_partial_signatures`, into `delta = a * (e + sk)`
/// and `e`, the sum of the signers' shares of `e`.
pub proof fn lemma_threshold_partial_signatures(
    parties: Seq<PerPartyPrecomputations>,
    i_k: int,
    indices: Seq<usize>,
    sk: int,
    poly_coeffs: Seq<int>,
    partials: Seq<PartialThresholdSignature>,
)
    requires
        signers_consistent(parties, i_k, indices),
        is_signer_set(indices, parties.len()),
        is_shamir_sharing(sk, key_shares(parties), poly_coeffs),
        poly_coeffs.len() + 1 <= indices.len(),
        distinct_positions(indices),
        partials.len() == indices.len(),
        forall|p: int|
            0 <= p < indices.len() ==> (#[trigger] partials[p]).delta_share@ == live_delta(
                signer_pre(parties, i_k, indices, p),
                indices[p],
                indices,
                lagrange_zero_coefficients(indices),
            ) && partials[p].e_share == signer_pre(parties, i_k, indices, p).e_share,
    ensures
        modr(delta_sum(partials, partials.len() as int)) == fmul(
            signers_a(parties, i_k, indices),
            signers_e(parties, i_k, indices) + sk,
        ),
        e_sum(partials, partials.len() as int) == signers_e(parties, i_k, indices),
{
    let coeffs = lagrange_zero_coefficients(indices);
    lemma_partial_signatures_combine(parties, i_k, indices, coeffs, partials);
    lemma_weighted_key_is_secret(parties, indices, sk, poly_coeffs);
    let a = signers_a(parties, i_k, indices);
    let e = signers_e(parties, i_k, indices);
    let w = signers_weighted_key(parties, indices, coeffs);
    lemma_modr_add(e, w);
    lemma_modr_add(e, sk);
    lemma_modr_mul(a, e + w);
    lemma_modr_mul(a, e + sk);
}

/// `b * a / (a * k) = b / k` modulo `r`: with `x` an inverse of `a * k`,
/// `((b * a) * x) * k = b`.
proof fn lemma_cancel_share(b: int, a: int, k: int, x: int)
    requires
        0 <= b < field_order(),
        modr(a * k * x) == 1,
    ensures
        fmul(fmul(modr(b * a), x), modr(k)) == b,
{
    let ba = modr(b * a);
    lemma_modr_mul(b * a, x);
    lemma_modr_mul(ba * x, k);
    lemma_modr_mul(modr(ba * x), k);
    lemma_modr_mul(b * a * x, k);
    assert(b * a * x * k == b * (a * k * x)) by (nonlinear_arith);
    lemma_modr_mul(b, a * k * x);
    lemma_modr_small(b);
    // fmul(ba, x) = modr(ba * x) = modr(b * a * x)
    assert(fmul(ba, x) == modr(b * a * x));
    assert(fmul(fmul(ba, x), modr(k)) == modr(modr(b * a * x) * k));
}

/// Threshold signing yields BBS+ signatures: partial signatures made from the
/// live pre-signatures of at least `t` distinct signers of a `t`-out-of-`n`
/// precomputation, on messages under a key whose generators are points of G1,
/// combine in `ThresholdSignature::from_partial_signatures` into a signature
/// that signs the messages for the shared secret key, and so passes
/// `ThresholdSignature::verify` under a key made for that secret key.
pub proof fn lemma_threshold_signature_signs(
    parties: Seq<PerPartyPrecomputations>,
    i_k: int,
    indices: Seq<usize>,
    sk: int,
    poly_coeffs: Seq<int>,
    partials: Seq<PartialThresholdSignature>,
    pk: PublicKey,
    messages: Seq<Scalar>,
    sig: ThresholdSignature,
)
    requires
        signers_consistent(parties, i_k, indices),
        is_signer_set(indices, parties.len()),
        is_shamir_sharing(sk, key_shares(parties), poly_coeffs),
        poly_coeffs.len() + 1 <= indices.len(),
        distinct_positions(indices),
        partials.len() == indices.len(),
        messages.len() == pk.h.len(),
        forall|p: int|
            0 <= p < indices.len() ==> {
                &&& (#[trigger] partials[p]).delta_share@ == live_delta(
                    signer_pre(parties, i_k, indices, p),
                    indices[p],
                    indices,
                    lagrange_zero_coefficients(indices),
                )
                &&& partials[p].e_share == signer_pre(parties, i_k, indices, p).e_share
                &&& partials[p].capital_a_share@ == g1_point(
                    fmul(
                        message_log(1, pk.h@, messages, pk.h.len() as int) as int,
                        signer_pre(parties, i_k, indices, p).a_share@ as int,
                    ) as nat,
                )
            },
        sig.e@ == modr(e_sum(partials, partials.len() as int)),
        sig.s@ == 0,
        fmul(
            modr(delta_sum(partials, partials.len() as int)),
            finv(modr(delta_sum(partials, partials.len() as int)) as nat) as int,
        ) == 1,
        combines_points(sig.capital_a@, partials),
    ensures
        signs(sig, messages, pk, modr(sk) as nat),
        exists|alpha: nat|
            alpha < field_order() && sig.capital_a@ == #[trigger] g1_point(alpha) && fmul(
                alpha as int,
                fadd(sig.e@ as int, modr(sk)),
            ) == modr(
                1 + sum_range(
                    messages.len() as int,
                    |i: int| crate::curve::g1_log(pk.h@[i]@) as int * messages[i]@ as int,
                ),
            ),
{
    let m = indices.len() as int;
    let b = message_log(1, pk.h@, messages, pk.h.len() as int);
    lemma_modr_small(1);
    lemma_message_log_bound(1, pk.h@, messages, pk.h.len() as int);
    lemma_threshold_partial_signatures(parties, i_k, indices, sk, poly_coeffs, partials);
    let a = signers_a(parties, i_k, indices);
    let e = signers_e(parties, i_k, indices);
    let d = delta_sum(partials, m);
    let x = finv(modr(d) as nat) as int;
    // the shares of A are b * a_p, so their sum is b * a
    let ap = |p: int| signer_pre(parties, i_k, indices, p).a_share@ as int;
    let logs = Seq::new(m as nat, |p: int| fmul(b as int, ap(p)) as nat);
    assert forall|p: int| 0 <= p < m implies logs[p] < field_order() && partials[p].capital_a_share@
        == g1_point(#[trigger] logs[p]) by {
        lemma_modr_idem(b as int * ap(p));
    }
    assert(logs.len() == partials.len());
    let l = log_sum(logs, m);
    let bap = |p: int| b as int * ap(p);
    let lp = |i: int| logs[i] as int;
    assert forall|p: int| 0 <= p < m implies #[trigger] modr(lp(p)) == modr(bap(p)) by {
        lemma_modr_idem(b as int * ap(p));
    }
    lemma_sum_congruent(m, lp, bap);
    assert(l == sum_range(m, lp));
    lemma_sum_scale(m, bap, b as int, ap);
    assert(modr(l) == modr(b as int * a));
    let alpha = fmul(modr(l), x);
    assert(sig.capital_a@ == g1_point(alpha as nat));
    // delta = a * (e + sk), and x is its inverse
    let k = e + sk;
    assert(modr(d) == modr(a * k));
    lemma_modr_mul(a * k, x);
    assert(modr(a * k * x) == 1);
    lemma_cancel_share(b as int, a, k, x);
    // e + sk as the signature holds it
    lemma_modr_add(e, sk);
    assert(fadd(sig.e@ as int, modr(sk)) == modr(k));
    lemma_modr_idem(modr(l) * x);
    // the signed basis with s = 0 is b
    assert(fmul(crate::curve::g1_log(pk.h0@) as int, sig.s@ as int) == 0);
    assert(signed_log(pk, sig.s, messages) == b);
    assert(fmul(alpha, fadd(sig.e@ as int, modr(sk))) == b);
    lemma_signed_log_sum(pk, sig.s, messages);
    assert(crate::curve::g1_log(pk.h0@) as int * sig.s@ as int == 0);
}

} // verus!
