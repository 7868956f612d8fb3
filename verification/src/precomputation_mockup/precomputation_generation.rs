//! Generation of all parties' pre-signatures from a seed.
use crate::fhks_bbs_plus::precomputation::{
    correlated_with, is_correlated_pre_signature, key_shares, PerPartyPrecomputations,
    PerPartyPreSignature,
};
use crate::field::{fmul, lemma_scalar_in_field, scalar_mul, Scalar};
use crate::helpers::ole_correlation::{
    is_ole_pair, is_ole_table, is_vole_table, make_all_parties_ole, make_all_parties_vole,
};
use crate::helpers::rng::{get_random_elements, xorshift_from_seed};
use crate::helpers::secret_sharing::{get_shamir_shared_random_element, is_shamir_sharing};
use vstd::prelude::*;

verus! {

broadcast use lemma_scalar_in_field;

/// For at least one party, `m` has at least `k` rows of at least `n` entries
/// (without parties nothing is read from it).
pub open spec fn covers_matrix(m: Seq<Vec<Scalar>>, k: nat, n: nat) -> bool {
    n > 0 ==> {
        &&& m.len() >= k
        &&& forall|a: int| 0 <= a < k ==> #[trigger] m[a].len() >= n
    }
}

/// For at least one party, `table[i_k]` has at least `n` rows of at least `n`
/// entries, for each `i_k < k` (without parties nothing is read from it).
pub open spec fn covers_table(table: Seq<Vec<Vec<(Scalar, Scalar)>>>, k: nat, n: nat) -> bool {
    n > 0 ==> {
        &&& table.len() >= k
        &&& forall|a: int| 0 <= a < k ==> #[trigger] table[a].len() >= n
        &&& forall|a: int, b: int| 0 <= a < k && 0 <= b < n ==> #[trigger] table[a][b].len() >= n
    }
}

/// `m` is a `k` by `n` matrix.
pub open spec fn is_matrix(m: Seq<Vec<Scalar>>, k: nat, n: nat) -> bool {
    &&& m.len() == k
    &&& forall|a: int| 0 <= a < k ==> #[trigger] m[a].len() == n
}

/// Party `i`'s pre-signature number `i_k`, read off the shares and the OLE tables.
pub open spec fn is_dealt_pre_signature(
    pre: PerPartyPreSignature,
    i_k: int,
    i: int,
    n: nat,
    sk_shares: Seq<Scalar>,
    a_shares: Seq<Vec<Scalar>>,
    e_shares: Seq<Vec<Scalar>>,
    s_shares: Seq<Vec<Scalar>>,
    ae_terms: Seq<Vec<Vec<(Scalar, Scalar)>>>,
    as_terms: Seq<Vec<Vec<(Scalar, Scalar)>>>,
    ask_terms: Seq<Vec<Vec<(Scalar, Scalar)>>>,
) -> bool {
    &&& pre.a_share == a_shares[i_k][i]
    &&& pre.e_share == e_shares[i_k][i]
    &&& pre.s_share == s_shares[i_k][i]
    &&& pre.ae_term_own@ == fmul(a_shares[i_k][i]@ as int, e_shares[i_k][i]@ as int)
    &&& pre.as_term_own@ == fmul(a_shares[i_k][i]@ as int, s_shares[i_k][i]@ as int)
    &&& pre.ask_term_own@ == fmul(a_shares[i_k][i]@ as int, sk_shares[i]@ as int)
    &&& pre.ae_terms_a.len() == n
    &&& pre.ae_terms_e.len() == n
    &&& pre.as_terms_a.len() == n
    &&& pre.as_terms_s.len() == n
    &&& pre.ask_terms_a.len() == n
    &&& pre.ask_terms_sk.len() == n
    &&& forall|j: int| 0 <= j < n ==> #[trigger] pre.ae_terms_a[j] == ae_terms[i_k][i][j].0
    &&& forall|j: int| 0 <= j < n ==> #[trigger] pre.ae_terms_e[j] == ae_terms[i_k][j][i].1
    &&& forall|j: int| 0 <= j < n ==> #[trigger] pre.as_terms_a[j] == as_terms[i_k][i][j].0
    &&& forall|j: int| 0 <= j < n ==> #[trigger] pre.as_terms_s[j] == as_terms[i_k][j][i].1
    &&& forall|j: int| 0 <= j < n ==> #[trigger] pre.ask_terms_a[j] == ask_terms[i_k][i][j].0
    &&& forall|j: int| 0 <= j < n ==> #[trigger] pre.ask_terms_sk[j] == ask_terms[i_k][j][i].1
}

/// Draws a `t`-out-of-`n` sharing of a random secret key, `k` random
/// `a`, `e`, `s` shared among the `n` parties, and OLE sharings of all the
/// products `a_i * e_j`, `a_i * s_j` and `a_i * sk_j`; builds every party's
/// pre-signatures from them.  Returns the secret key and the parties' data.
pub fn generate_pp_precomputation(seed_array: [u8; 16], t: usize, n: usize, k: usize) -> (r: (
    Scalar,
    Vec<PerPartyPrecomputations>,
))
    requires
        t >= 1,
    ensures
        r.1.len() == n,
        exists|coeffs: Seq<int>|
            coeffs.len() == t - 1 && #[trigger] is_shamir_sharing(
                r.0@ as int,
                key_shares(r.1@),
                coeffs,
            ),
        forall|i: int|
            0 <= i < n ==> #[trigger] r.1[i].index == i + 1 && r.1[i].pre_signatures.len() == k,
        forall|i_k: int, i: int|
            0 <= i_k < k && 0 <= i < n ==> #[trigger] is_correlated_pre_signature(
                r.1@,
                i_k,
                i,
                n as nat,
            ),
{
    let (sk, sk_shares, a_shares, e_shares, s_shares, ae_terms, as_terms, ask_terms) =
        generate_pcf_pcg_output(seed_array, t, n, k);
    let parties = create_pp_precomputation_from_all_v_ole_evaluations(
        k,
        n,
        &sk_shares,
        &a_shares,
        &e_shares,
        &s_shares,
        &ae_terms,
        &as_terms,
        &ask_terms,
    );
    let ghost c = choose|c: Seq<int>|
        c.len() == t - 1 && #[trigger] is_shamir_sharing(sk@ as int, sk_shares@, c);
    proof {
        assert(key_shares(parties@) =~= sk_shares@);
        assert(is_shamir_sharing(sk@ as int, key_shares(parties@), c));
        assert forall|i_k: int, i: int|
            0 <= i_k < k && 0 <= i < n implies #[trigger] is_correlated_pre_signature(
            parties@,
            i_k,
            i,
            n as nat,
        ) by {
            let pi = parties@[i].pre_signatures@[i_k];
            assert(is_dealt_pre_signature(
                pi,
                i_k,
                i,
                n as nat,
                sk_shares@,
                a_shares@,
                e_shares@,
                s_shares@,
                ae_terms@,
                as_terms@,
                ask_terms@,
            ));
            assert forall|j: int| 0 <= j < n implies correlated_with(
                pi,
                #[trigger] parties@[j].pre_signatures@[i_k],
                i,
                j,
                parties@[j].sk_share,
            ) by {
                let pj = parties@[j].pre_signatures@[i_k];
                assert(is_dealt_pre_signature(
                    pj,
                    i_k,
                    j,
                    n as nat,
                    sk_shares@,
                    a_shares@,
                    e_shares@,
                    s_shares@,
                    ae_terms@,
                    as_terms@,
                    ask_terms@,
                ));
                assert(pi.ae_terms_a[j] == ae_terms@[i_k][i][j].0);
                assert(pj.ae_terms_e[i] == ae_terms@[i_k][i][j].1);
                assert(is_ole_pair(ae_terms@[i_k][i][j], a_shares@[i_k][i], e_shares@[i_k][j]));
                assert(pi.as_terms_a[j] == as_terms@[i_k][i][j].0);
                assert(pj.as_terms_s[i] == as_terms@[i_k][i][j].1);
                assert(is_ole_pair(as_terms@[i_k][i][j], a_shares@[i_k][i], s_shares@[i_k][j]));
                assert(pi.ask_terms_a[j] == ask_terms@[i_k][i][j].0);
                assert(pj.ask_terms_sk[i] == ask_terms@[i_k][i][j].1);
                assert(is_ole_pair(ask_terms@[i_k][i][j], a_shares@[i_k][i], sk_shares@[j]));
            }
        }
    }
    let r = (sk, parties);
    assert(c.len() == t - 1 && is_shamir_sharing(r.0@ as int, key_shares(r.1@), c));
    r
}

/// The dealer's output: the secret key, its `t`-out-of-`n` sharing, the
/// `k` by `n` shares of `a`, `e`, `s`, and the OLE tables of `a * e`,
/// `a * s` and `a * sk`.
pub fn generate_pcf_pcg_output(seed_array: [u8; 16], t: usize, n: usize, k: usize) -> (r: (
    Scalar,
    Vec<Scalar>,
    Vec<Vec<Scalar>>,
    Vec<Vec<Scalar>>,
    Vec<Vec<Scalar>>,
    Vec<Vec<Vec<(Scalar, Scalar)>>>,
    Vec<Vec<Vec<(Scalar, Scalar)>>>,
    Vec<Vec<Vec<(Scalar, Scalar)>>>,
))
    requires
        t >= 1,
    ensures
        r.1.len() == n,
        exists|coeffs: Seq<int>|
            coeffs.len() == t - 1 && #[trigger] is_shamir_sharing(r.0@ as int, r.1@, coeffs),
        is_matrix(r.2@, k as nat, n as nat),
        is_matrix(r.3@, k as nat, n as nat),
        is_matrix(r.4@, k as nat, n as nat),
        is_ole_table(r.5@, n as nat, k as nat, r.2@, r.3@),
        is_ole_table(r.6@, n as nat, k as nat, r.2@, r.4@),
        is_vole_table(r.7@, n as nat, k as nat, r.2@, r.1@),
{
    let mut rng = xorshift_from_seed(seed_array);
    let (sk, sk_shares) = get_shamir_shared_random_element(&mut rng, t, n);
    let a_shares = get_random_elements(&mut rng, n, k);
    let e_shares = get_random_elements(&mut rng, n, k);
    let s_shares = get_random_elements(&mut rng, n, k);
    let a1 = copy_matrix(&a_shares);
    let e1 = copy_matrix(&e_shares);
    let ae_terms = make_all_parties_ole(&mut rng, n, k, a1, e1);
    let a2 = copy_matrix(&a_shares);
    let s2 = copy_matrix(&s_shares);
    let as_terms = make_all_parties_ole(&mut rng, n, k, a2, s2);
    let a3 = copy_matrix(&a_shares);
    let ask_terms = make_all_parties_vole(&mut rng, n, k, a3, copy_vector(&sk_shares));
    proof {
        assert forall|a: int, b: int, c: int|
            0 <= a < k && 0 <= b < n && 0 <= c < n implies {
            &&& is_ole_pair(#[trigger] ae_terms@[a][b][c], a_shares@[a][b], e_shares@[a][c])
            &&& is_ole_pair(as_terms@[a][b][c], a_shares@[a][b], s_shares@[a][c])
            &&& is_ole_pair(ask_terms@[a][b][c], a_shares@[a][b], sk_shares@[c])
        } by {
            assert(a1@[a]@ == a_shares@[a]@);
            assert(e1@[a]@ == e_shares@[a]@);
            assert(a2@[a]@ == a_shares@[a]@);
            assert(s2@[a]@ == s_shares@[a]@);
            assert(a3@[a]@ == a_shares@[a]@);
        }
    }
    let ghost c = choose|c: Seq<int>|
        c.len() == t - 1 && #[trigger] is_shamir_sharing(sk@ as int, sk_shares@, c);
    let r = (sk, sk_shares, a_shares, e_shares, s_shares, ae_terms, as_terms, ask_terms);
    assert(c.len() == t - 1 && is_shamir_sharing(r.0@ as int, r.1@, c));
    r
}

/// A copy of a vector of field elements.
fn copy_vector(v: &Vec<Scalar>) -> (r: Vec<Scalar>)
    ensures
        r@ == v@,
{
    let mut r: Vec<Scalar> = Vec::new();
    for i in 0..v.len()
        invariant
            r@ == v@.take(i as int),
    {
        r.push(v[i]);
        proof {
            assert(v@.take(i + 1) =~= v@.take(i as int).push(v@[i as int]));
        }
    }
    proof {
        assert(v@.take(v.len() as int) =~= v@);
    }
    r
}

/// A copy of a matrix of field elements.
fn copy_matrix(m: &Vec<Vec<Scalar>>) -> (r: Vec<Vec<Scalar>>)
    ensures
        r.len() == m.len(),
        forall|i: int| 0 <= i < m.len() ==> #[trigger] r[i]@ == m[i]@,
        forall|i: int| 0 <= i < m.len() ==> #[trigger] r[i].len() == m[i].len(),
{
    let mut r: Vec<Vec<Scalar>> = Vec::new();
    for i in 0..m.len()
        invariant
            r.len() == i,
            forall|j: int| 0 <= j < i ==> #[trigger] r[j]@ == m[j]@,
            forall|j: int| 0 <= j < i ==> #[trigger] r[j].len() == m[j].len(),
    {
        r.push(copy_vector(&m[i]));
    }
    r
}

/// Builds every party's pre-signatures: party `i_n` gets its shares of `a`,
/// `e`, `s`, its own products, the first components of its rows of the OLE
/// tables and the second components of its columns.
pub fn create_pp_precomputation_from_all_v_ole_evaluations(
    k: usize,
    n: usize,
    sk_shares: &Vec<Scalar>,
    a_shares: &Vec<Vec<Scalar>>,
    e_shares: &Vec<Vec<Scalar>>,
    s_shares: &Vec<Vec<Scalar>>,
    ae_terms: &Vec<Vec<Vec<(Scalar, Scalar)>>>,
    as_terms: &Vec<Vec<Vec<(Scalar, Scalar)>>>,
    ask_terms: &Vec<Vec<Vec<(Scalar, Scalar)>>>,
) -> (r: Vec<PerPartyPrecomputations>)
    requires
        sk_shares.len() >= n,
        covers_matrix(a_shares@, k as nat, n as nat),
        covers_matrix(e_shares@, k as nat, n as nat),
        covers_matrix(s_shares@, k as nat, n as nat),
        covers_table(ae_terms@, k as nat, n as nat),
        covers_table(as_terms@, k as nat, n as nat),
        covers_table(ask_terms@, k as nat, n as nat),
    ensures
        r.len() == n,
        forall|i: int| 0 <= i < n ==> #[trigger] r[i].index == i + 1,
        forall|i: int| 0 <= i < n ==> #[trigger] r[i].sk_share == sk_shares[i],
        forall|i: int| 0 <= i < n ==> #[trigger] r[i].pre_signatures.len() == k,
        forall|i_k: int, i: int|
            0 <= i_k < k && 0 <= i < n ==> #[trigger] is_dealt_pre_signature(
                r[i].pre_signatures[i_k],
                i_k,
                i,
                n as nat,
                sk_shares@,
                a_shares@,
                e_shares@,
                s_shares@,
                ae_terms@,
                as_terms@,
                ask_terms@,
            ),
{
    let mut r: Vec<PerPartyPrecomputations> = Vec::new();
    for i_n in 0..n
        invariant
            sk_shares.len() >= n,
            covers_matrix(a_shares@, k as nat, n as nat),
            covers_matrix(e_shares@, k as nat, n as nat),
            covers_matrix(s_shares@, k as nat, n as nat),
            covers_table(ae_terms@, k as nat, n as nat),
            covers_table(as_terms@, k as nat, n as nat),
            covers_table(ask_terms@, k as nat, n as nat),
            r.len() == i_n,
            forall|i: int| 0 <= i < i_n ==> #[trigger] r[i].index == i + 1,
            forall|i: int| 0 <= i < i_n ==> #[trigger] r[i].sk_share == sk_shares[i],
            forall|i: int| 0 <= i < i_n ==> #[trigger] r[i].pre_signatures.len() == k,
            forall|i_k: int, i: int|
                0 <= i_k < k && 0 <= i < i_n ==> #[trigger] is_dealt_pre_signature(
                    r[i].pre_signatures[i_k],
                    i_k,
                    i,
                    n as nat,
                    sk_shares@,
                    a_shares@,
                    e_shares@,
                    s_shares@,
                    ae_terms@,
                    as_terms@,
                    ask_terms@,
                ),
    {
        let mut pre_signatures: Vec<PerPartyPreSignature> = Vec::new();
        for i_k in 0..k
            invariant
                0 <= i_n < n,
                sk_shares.len() >= n,
                covers_matrix(a_shares@, k as nat, n as nat),
                covers_matrix(e_shares@, k as nat, n as nat),
                covers_matrix(s_shares@, k as nat, n as nat),
                covers_table(ae_terms@, k as nat, n as nat),
                covers_table(as_terms@, k as nat, n as nat),
                covers_table(ask_terms@, k as nat, n as nat),
                pre_signatures.len() == i_k,
                forall|kk: int|
                    0 <= kk < i_k ==> #[trigger] is_dealt_pre_signature(
                        pre_signatures[kk],
                        kk,
                        i_n as int,
                        n as nat,
                        sk_shares@,
                        a_shares@,
                        e_shares@,
                        s_shares@,
                        ae_terms@,
                        as_terms@,
                        ask_terms@,
                    ),
        {
            assert(a_shares@[i_k as int].len() >= n);
            assert(e_shares@[i_k as int].len() >= n);
            assert(s_shares@[i_k as int].len() >= n);
            assert(ae_terms@[i_k as int].len() >= n);
            assert(as_terms@[i_k as int].len() >= n);
            assert(ask_terms@[i_k as int].len() >= n);
            assert(ae_terms@[i_k as int][i_n as int].len() >= n);
            assert(as_terms@[i_k as int][i_n as int].len() >= n);
            assert(ask_terms@[i_k as int][i_n as int].len() >= n);
            let a = a_shares[i_k][i_n];
            let e = e_shares[i_k][i_n];
            let s = s_shares[i_k][i_n];
            let pre = PerPartyPreSignature {
                a_share: a,
                e_share: e,
                s_share: s,
                ae_term_own: scalar_mul(&a, &e),
                as_term_own: scalar_mul(&a, &s),
                ask_term_own: scalar_mul(&a, &sk_shares[i_n]),
                ae_terms_a: row_firsts(ae_terms, i_k, i_n, n),
                ae_terms_e: column_seconds(ae_terms, i_k, i_n, n),
                as_terms_a: row_firsts(as_terms, i_k, i_n, n),
                as_terms_s: column_seconds(as_terms, i_k, i_n, n),
                ask_terms_a: row_firsts(ask_terms, i_k, i_n, n),
                ask_terms_sk: column_seconds(ask_terms, i_k, i_n, n),
            };
            pre_signatures.push(pre);
        }
        r.push(PerPartyPrecomputations { index: i_n + 1, sk_share: sk_shares[i_n], pre_signatures });
    }
    r
}

/// The first components of row `i` of table `i_k`.
fn row_firsts(table: &Vec<Vec<Vec<(Scalar, Scalar)>>>, i_k: usize, i: usize, n: usize) -> (r: Vec<
    Scalar,
>)
    requires
        0 <= i_k < table.len(),
        0 <= i < table[i_k as int].len(),
        table[i_k as int][i as int].len() >= n,
    ensures
        r.len() == n,
        forall|j: int| 0 <= j < n ==> #[trigger] r[j] == table[i_k as int][i as int][j].0,
{
    let mut r: Vec<Scalar> = Vec::new();
    for j in 0..n
        invariant
            0 <= i_k < table.len(),
            0 <= i < table[i_k as int].len(),
            table[i_k as int][i as int].len() >= n,
            r.len() == j,
            forall|jj: int| 0 <= jj < j ==> #[trigger] r[jj] == table[i_k as int][i as int][jj].0,
    {
        r.push(table[i_k][i][j].0);
    }
    r
}

/// The second components of column `i` of table `i_k`.
fn column_seconds(table: &Vec<Vec<Vec<(Scalar, Scalar)>>>, i_k: usize, i: usize, n: usize) -> (r:
    Vec<Scalar>)
    requires
        0 <= i_k < table.len(),
        table[i_k as int].len() >= n,
        forall|j: int| 0 <= j < n ==> i < #[trigger] table[i_k as int][j].len(),
    ensures
        r.len() == n,
        forall|j: int| 0 <= j < n ==> #[trigger] r[j] == table[i_k as int][j][i as int].1,
{
    let mut r: Vec<Scalar> = Vec::new();
    for j in 0..n
        invariant
            0 <= i_k < table.len(),
            table[i_k as int].len() >= n,
            forall|jj: int| 0 <= jj < n ==> i < #[trigger] table[i_k as int][jj].len(),
            r.len() == j,
            forall|jj: int| 0 <= jj < j ==> #[trigger] r[jj] == table[i_k as int][jj][i as int].1,
    {
        assert(i < table[i_k as int][j as int].len());
        r.push(table[i_k][j][i].1);
    }
    r
}

} // verus!
