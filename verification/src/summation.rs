//! Finite sums over integer ranges and the algebra of such sums.
use crate::field::{lemma_modr_add, modr};
use vstd::prelude::*;

verus! {

/// `f(0) + f(1) + ... + f(n - 1)`.
pub open spec fn sum_range(n: int, f: spec_fn(int) -> int) -> int
    decreases n,
{
    if n <= 0 {
        0
    } else {
        sum_range(n - 1, f) + f(n - 1)
    }
}

/// `sum_{q < n} f(p, q)`.
pub open spec fn row_sum(n: int, f: spec_fn(int, int) -> int, p: int) -> int {
    sum_range(n, |q: int| f(p, q))
}

/// `sum_{p < n} sum_{q < n} f(p, q)`.
pub open spec fn double_sum(n: int, f: spec_fn(int, int) -> int) -> int {
    sum_range(n, |p: int| row_sum(n, f, p))
}

/// Sums of functions that agree on the range are equal.
pub proof fn lemma_sum_ext(n: int, f: spec_fn(int) -> int, g: spec_fn(int) -> int)
    requires
        forall|i: int| 0 <= i < n ==> #[trigger] f(i) == g(i),
    ensures
        sum_range(n, f) == sum_range(n, g),
    decreases n,
{
    if n > 0 {
        lemma_sum_ext(n - 1, f, g);
    }
}

/// The sum of a pointwise sum is the sum of the sums.
pub proof fn lemma_sum_add(n: int, h: spec_fn(int) -> int, f: spec_fn(int) -> int, g: spec_fn(int) -> int)
    requires
        forall|i: int| 0 <= i < n ==> #[trigger] h(i) == f(i) + g(i),
    ensures
        sum_range(n, h) == sum_range(n, f) + sum_range(n, g),
    decreases n,
{
    if n > 0 {
        lemma_sum_add(n - 1, h, f, g);
    }
}

/// A constant factor can be taken out of a sum.
pub proof fn lemma_sum_scale(n: int, h: spec_fn(int) -> int, c: int, f: spec_fn(int) -> int)
    requires
        forall|i: int| 0 <= i < n ==> #[trigger] h(i) == c * f(i),
    ensures
        sum_range(n, h) == c * sum_range(n, f),
    decreases n,
{
    if n > 0 {
        lemma_sum_scale(n - 1, h, c, f);
        let s = sum_range(n - 1, f);
        assert(c * s + c * f(n - 1) == c * (s + f(n - 1))) by (nonlinear_arith);
    }
}

/// The sum of a function that is `v` at `p` and zero elsewhere is `v`.
pub proof fn lemma_sum_single(n: int, p: int, v: int, f: spec_fn(int) -> int)
    requires
        0 <= p < n,
        forall|i: int| 0 <= i < n ==> #[trigger] f(i) == if i == p { v } else { 0 },
    ensures
        sum_range(n, f) == v,
    decreases n,
{
    if n - 1 > p {
        lemma_sum_single(n - 1, p, v, f);
    } else {
        lemma_sum_zero(n - 1, f);
    }
}

/// A sum of zeros is zero.
pub proof fn lemma_sum_zero(n: int, f: spec_fn(int) -> int)
    requires
        forall|i: int| 0 <= i < n ==> #[trigger] f(i) == 0,
    ensures
        sum_range(n, f) == 0,
    decreases n,
{
    if n > 0 {
        lemma_sum_zero(n - 1, f);
    }
}

/// Sums of terms congruent modulo the field order are congruent.
pub proof fn lemma_sum_congruent(n: int, f: spec_fn(int) -> int, g: spec_fn(int) -> int)
    requires
        forall|i: int| 0 <= i < n ==> #[trigger] modr(f(i)) == modr(g(i)),
    ensures
        modr(sum_range(n, f)) == modr(sum_range(n, g)),
    decreases n,
{
    if n > 0 {
        lemma_sum_congruent(n - 1, f, g);
        let sf = sum_range(n - 1, f);
        let sg = sum_range(n - 1, g);
        lemma_modr_add(sf, f(n - 1));
        lemma_modr_add(sg, g(n - 1));
    }
}

/// Extending a double sum by one row and one column.
proof fn lemma_double_sum_step(n: int, f: spec_fn(int, int) -> int)
    requires
        n > 0,
    ensures
        double_sum(n, f) == double_sum(n - 1, f) + sum_range(n - 1, |q: int| f(n - 1, q))
            + sum_range(n - 1, |p: int| f(p, n - 1)) + f(n - 1, n - 1),
{
    let m = n - 1;
    let rows = |p: int| row_sum(n, f, p);
    let short_rows = |p: int| row_sum(m, f, p);
    let last_col = |p: int| f(p, m);
    assert forall|p: int| 0 <= p < m implies #[trigger] rows(p) == short_rows(p) + last_col(p) by {
    }
    lemma_sum_add(m, rows, short_rows, last_col);
    assert(sum_range(n, rows) == sum_range(m, rows) + rows(m));
    assert(rows(m) == sum_range(m, |q: int| f(m, q)) + f(m, m));
}

/// The order of summation in a double sum can be exchanged.
pub proof fn lemma_double_sum_swap(n: int, f: spec_fn(int, int) -> int)
    ensures
        double_sum(n, f) == double_sum(n, |p: int, q: int| f(q, p)),
    decreases n,
{
    let g = |p: int, q: int| f(q, p);
    if n > 0 {
        lemma_double_sum_swap(n - 1, f);
        lemma_double_sum_step(n, f);
        lemma_double_sum_step(n, g);
        lemma_sum_ext(n - 1, |q: int| g(n - 1, q), |p: int| f(p, n - 1));
        lemma_sum_ext(n - 1, |p: int| g(p, n - 1), |q: int| f(n - 1, q));
    }
}

/// The double sum of a pointwise sum is the sum of the double sums.
pub proof fn lemma_double_sum_add(
    n: int,
    h: spec_fn(int, int) -> int,
    f: spec_fn(int, int) -> int,
    g: spec_fn(int, int) -> int,
)
    requires
        forall|p: int, q: int| 0 <= p < n && 0 <= q < n ==> #[trigger] h(p, q) == f(p, q) + g(p, q),
    ensures
        double_sum(n, h) == double_sum(n, f) + double_sum(n, g),
{
    let rf = |p: int| row_sum(n, f, p);
    let rg = |p: int| row_sum(n, g, p);
    assert forall|p: int| 0 <= p < n implies #[trigger] row_sum(n, h, p) == rf(p) + rg(p) by {
        lemma_sum_add(n, |q: int| h(p, q), |q: int| f(p, q), |q: int| g(p, q));
    }
    lemma_sum_add(n, |p: int| row_sum(n, h, p), rf, rg);
}

/// Double sums of terms congruent modulo the field order are congruent.
pub proof fn lemma_double_sum_congruent(
    n: int,
    f: spec_fn(int, int) -> int,
    g: spec_fn(int, int) -> int,
)
    requires
        forall|p: int, q: int| 0 <= p < n && 0 <= q < n ==> #[trigger] modr(f(p, q)) == modr(g(p, q)),
    ensures
        modr(double_sum(n, f)) == modr(double_sum(n, g)),
{
    assert forall|p: int| 0 <= p < n implies #[trigger] modr(row_sum(n, f, p)) == modr(
        row_sum(n, g, p),
    ) by {
        let fp = |q: int| f(p, q);
        let gp = |q: int| g(p, q);
        assert forall|q: int| 0 <= q < n implies #[trigger] modr(fp(q)) == modr(gp(q)) by {
            assert(modr(f(p, q)) == modr(g(p, q)));
        }
        lemma_sum_congruent(n, fp, gp);
    }
    lemma_sum_congruent(n, |p: int| row_sum(n, f, p), |p: int| row_sum(n, g, p));
}

/// The double sum of products `a(p) * b(q)` is the product of the sums.
pub proof fn lemma_double_sum_product(n: int, a: spec_fn(int) -> int, b: spec_fn(int) -> int)
    ensures
        double_sum(n, |p: int, q: int| a(p) * b(q)) == sum_range(n, a) * sum_range(n, b),
{
    let sb = sum_range(n, b);
    let f = |p: int, q: int| a(p) * b(q);
    assert forall|p: int| 0 <= p < n implies #[trigger] row_sum(n, f, p) == sb * a(p) by {
        lemma_sum_scale(n, |q: int| f(p, q), a(p), b);
        assert(a(p) * sb == sb * a(p)) by (nonlinear_arith);
    }
    lemma_sum_scale(n, |p: int| row_sum(n, f, p), sb, a);
    assert(sb * sum_range(n, a) == sum_range(n, a) * sb) by (nonlinear_arith);
}

/// Changing one term changes the sum by the difference.
pub proof fn lemma_sum_change_one(n: int, f: spec_fn(int) -> int, g: spec_fn(int) -> int, j: int)
    requires
        0 <= j < n,
        forall|i: int| 0 <= i < n && i != j ==> #[trigger] f(i) == g(i),
    ensures
        sum_range(n, f) - f(j) == sum_range(n, g) - g(j),
    decreases n,
{
    if n - 1 > j {
        lemma_sum_change_one(n - 1, f, g, j);
    } else {
        lemma_sum_ext(n - 1, f, g);
    }
}

/// Summing in the order of a permutation `perm` of `0..n` (with inverse
/// `inv`) gives the same sum.
pub proof fn lemma_sum_permutation(n: int, f: spec_fn(int) -> int, perm: Seq<int>, inv: Seq<int>)
    requires
        perm.len() == n,
        inv.len() == n,
        forall|i: int| 0 <= i < n ==> 0 <= #[trigger] perm[i] < n && inv[perm[i]] == i,
        forall|k: int| 0 <= k < n ==> 0 <= #[trigger] inv[k] < n && perm[inv[k]] == k,
    ensures
        sum_range(n, |i: int| f(perm[i])) == sum_range(n, f),
    decreases n,
{
    if n > 0 {
        let last = n - 1;
        let j = inv[last];
        let pl = perm[last];
        // move the entry at j to the end: perm1 on 0..n-1
        let perm1 = Seq::new(last as nat, |i: int| if i == j { pl } else { perm[i] });
        let inv1 = Seq::new(last as nat, |k: int| if k == pl { j } else { inv[k] });
        assert forall|i: int| 0 <= i < last implies 0 <= #[trigger] perm1[i] < last && inv1[perm1[i]]
            == i by {
            if i == j {
                assert(pl != last);
            } else {
                assert(perm[i] != last);
                assert(perm[i] != pl);
            }
        }
        assert forall|k: int| 0 <= k < last implies 0 <= #[trigger] inv1[k] < last && perm1[inv1[k]]
            == k by {
            if k == pl {
                assert(j != last);
            } else {
                assert(inv[k] != last);
                assert(inv[k] != j);
            }
        }
        lemma_sum_permutation(last, f, perm1, inv1);
        let fp = |i: int| f(perm[i]);
        let fp1 = |i: int| f(perm1[i]);
        if j == last {
            lemma_sum_ext(last, fp, fp1);
        } else {
            // on 0..n-1, fp and fp1 differ only at j
            lemma_sum_change_one(last, fp, fp1, j);
        }
    }
}

} // verus!
