//! Polynomials over the integers as coefficient lists (constant term first),
//! and why Lagrange interpolation recovers the value at zero.
use crate::field::{
    lemma_modr_add, lemma_modr_idem, lemma_modr_mul, lemma_modr_small, lemma_modr_sub, modr,
};
use crate::summation::{lemma_sum_add, lemma_sum_ext, lemma_sum_scale, lemma_sum_single, sum_range};
use vstd::prelude::*;

verus! {

/// The polynomial with coefficients `c` evaluated at `x` by Horner's rule.
pub open spec fn horner(c: Seq<int>, x: int) -> int
    decreases c.len(),
{
    if c.len() == 0 {
        0
    } else {
        c[0] + x * horner(c.drop_first(), x)
    }
}

/// The quotient of the polynomial `c` by `x - z` (synthetic division).
pub open spec fn div_linear(c: Seq<int>, z: int) -> Seq<int>
    decreases c.len(),
{
    if c.len() <= 1 {
        Seq::empty()
    } else {
        seq![horner(c.drop_first(), z)] + div_linear(c.drop_first(), z)
    }
}

/// `c(x) = c(z) + (x - z) * q(x)` for the quotient `q` of `c` by `x - z`,
/// which has one coefficient fewer.
pub proof fn lemma_div_linear(c: Seq<int>, z: int, x: int)
    ensures
        horner(c, x) == horner(c, z) + (x - z) * horner(div_linear(c, z), x),
        div_linear(c, z).len() == if c.len() == 0 {
            0
        } else {
            c.len() - 1
        },
    decreases c.len(),
{
    if c.len() == 1 {
        assert(horner(c.drop_first(), x) == 0);
        assert(horner(c.drop_first(), z) == 0);
    } else if c.len() > 1 {
        let f1 = c.drop_first();
        lemma_div_linear(f1, z, x);
        let g = div_linear(c, z);
        assert(g.drop_first() =~= div_linear(f1, z));
        let c0 = c[0];
        let f1x = horner(f1, x);
        let f1z = horner(f1, z);
        let g1x = horner(div_linear(f1, z), x);
        assert(horner(g, x) == f1z + x * g1x);
        assert(c0 + x * f1x == c0 + z * f1z + (x - z) * (f1z + x * g1x)) by (nonlinear_arith)
            requires
                f1x == f1z + (x - z) * g1x,
        ;
    }
}

/// `s` with `v` added to its constant term.
pub open spec fn add_to_constant(s: Seq<int>, v: int) -> Seq<int> {
    if s.len() == 0 {
        seq![v]
    } else {
        s.update(0, s[0] + v)
    }
}

/// The coefficients of `(x - a) * c(x)`.
pub open spec fn mul_linear(c: Seq<int>, a: int) -> Seq<int>
    decreases c.len(),
{
    if c.len() == 0 {
        Seq::empty()
    } else {
        seq![-a * c[0]] + add_to_constant(mul_linear(c.drop_first(), a), c[0])
    }
}

/// Multiplying by `x - a` multiplies the value by `x - a` and adds one coefficient.
pub proof fn lemma_mul_linear(c: Seq<int>, a: int, x: int)
    ensures
        horner(mul_linear(c, a), x) == (x - a) * horner(c, x),
        mul_linear(c, a).len() == if c.len() == 0 {
            0
        } else {
            c.len() + 1
        },
    decreases c.len(),
{
    if c.len() > 0 {
        let c1 = c.drop_first();
        lemma_mul_linear(c1, a, x);
        let m1 = mul_linear(c1, a);
        let s = add_to_constant(m1, c[0]);
        if m1.len() == 0 {
            assert(horner(s.drop_first(), x) == 0);
            assert(horner(s, x) == c[0]);
        } else {
            assert(s.drop_first() =~= m1.drop_first());
            assert(horner(s, x) == horner(m1, x) + c[0]);
        }
        let m = mul_linear(c, a);
        assert(m.drop_first() =~= s);
        let c1x = horner(c1, x);
        assert(-a * c[0] + x * ((x - a) * c1x + c[0]) == (x - a) * (c[0] + x * c1x))
            by (nonlinear_arith);
    }
}

/// Adding to the constant term adds to the value.
proof fn lemma_add_to_constant(s: Seq<int>, v: int, x: int)
    ensures
        horner(add_to_constant(s, v), x) == horner(s, x) + v,
        add_to_constant(s, v).len() == if s.len() == 0 {
            1
        } else {
            s.len()
        },
{
    let r = add_to_constant(s, v);
    if s.len() == 0 {
        assert(horner(r.drop_first(), x) == 0);
    } else {
        assert(r.drop_first() =~= s.drop_first());
    }
}

/// The coefficients of `c(t + x)` as a polynomial in `t`.
pub open spec fn shift_poly(c: Seq<int>, x: int) -> Seq<int>
    decreases c.len(),
{
    if c.len() == 0 {
        Seq::empty()
    } else {
        add_to_constant(mul_linear(shift_poly(c.drop_first(), x), -x), c[0])
    }
}

/// `shift_poly(c, x)` evaluates at `t` to `c(t + x)`, with as many coefficients as `c`.
pub proof fn lemma_shift_poly(c: Seq<int>, x: int, t: int)
    ensures
        horner(shift_poly(c, x), t) == horner(c, t + x),
        shift_poly(c, x).len() == c.len(),
    decreases c.len(),
{
    if c.len() > 0 {
        let c1 = c.drop_first();
        lemma_shift_poly(c1, x, t);
        let g1 = shift_poly(c1, x);
        lemma_mul_linear(g1, -x, t);
        lemma_add_to_constant(mul_linear(g1, -x), c[0], t);
        assert((t - (-x)) * horner(g1, t) == (t + x) * horner(c1, t + x));
    }
}

/// The positions `s` moved by `-x`.
pub open spec fn shift_positions(s: Seq<int>, x: int) -> Seq<int> {
    Seq::new(s.len(), |q: int| s[q] - x)
}

/// Moving the positions and the point alike leaves the products unchanged.
pub proof fn lemma_pos_prod_shift(s: Seq<int>, x: int, p: int, t: int)
    ensures
        pos_prod(shift_positions(s, x), p, t - x) == pos_prod(s, p, t),
    decreases s.len(),
{
    if s.len() > 0 {
        assert(shift_positions(s, x).drop_last() =~= shift_positions(s.drop_last(), x));
        lemma_pos_prod_shift(s.drop_last(), x, p, t);
        assert((t - x) - shift_positions(s, x).last() == t - s.last());
    }
}

/// The product of `x - s[q]` over the positions `q` of `s` other than `p`.
pub open spec fn pos_prod(s: Seq<int>, p: int, x: int) -> int
    decreases s.len(),
{
    if s.len() == 0 {
        1
    } else if s.len() - 1 != p {
        pos_prod(s.drop_last(), p, x) * (x - s.last())
    } else {
        pos_prod(s.drop_last(), p, x)
    }
}

/// The coefficients of the product of `x - s[q]` over all positions `q`.
pub open spec fn prod_poly(s: Seq<int>) -> Seq<int>
    decreases s.len(),
{
    if s.len() == 0 {
        seq![1]
    } else {
        mul_linear(prod_poly(s.drop_last()), s.last())
    }
}

/// `prod_poly(s)` has one coefficient more than `s` has entries, and its value
/// is the product over all positions.
pub proof fn lemma_prod_poly(s: Seq<int>, p: int, x: int)
    requires
        p < 0 || p >= s.len(),
    ensures
        horner(prod_poly(s), x) == pos_prod(s, p, x),
        prod_poly(s).len() == s.len() + 1,
    decreases s.len(),
{
    if s.len() == 0 {
        assert(horner(seq![1int].drop_first(), x) == 0);
    } else {
        lemma_prod_poly(s.drop_last(), p, x);
        lemma_mul_linear(prod_poly(s.drop_last()), s.last(), x);
        let v = pos_prod(s.drop_last(), p, x);
        assert(v * (x - s.last()) == (x - s.last()) * v) by (nonlinear_arith);
    }
}

/// The product over all positions vanishes at each entry.
pub proof fn lemma_pos_prod_root(s: Seq<int>, p: int, q: int)
    requires
        p < 0 || p >= s.len(),
        0 <= q < s.len(),
    ensures
        pos_prod(s, p, s[q]) == 0,
    decreases s.len(),
{
    let v = pos_prod(s.drop_last(), p, s[q]);
    if q < s.len() - 1 {
        lemma_pos_prod_root(s.drop_last(), p, q);
        assert(s.drop_last()[q] == s[q]);
        assert(v * (s[q] - s.last()) == 0) by (nonlinear_arith)
            requires
                v == 0,
        ;
    } else {
        assert(v * (s[q] - s.last()) == 0) by (nonlinear_arith)
            requires
                s[q] == s.last(),
        ;
    }
}

/// `sum_p c(s[p]) * pos_prod(s, p, 0) * inv(p)`: the interpolation to zero of
/// the polynomial `c` from the positions `s`, where `inv(p)` stands for the
/// inverse of the `p`-th denominator `pos_prod(s, p, s[p])`.
pub open spec fn lagrange_sum(s: Seq<int>, c: Seq<int>, inv: spec_fn(int) -> int) -> int {
    sum_range(s.len() as int, |p: int| horner(c, s[p]) * pos_prod(s, p, 0) * inv(p))
}

/// The inverses `inv(p) * (s[p] - z)`, for the positions without `z`.
spec fn absorb(inv: spec_fn(int) -> int, s: Seq<int>, z: int) -> spec_fn(int) -> int {
    |p: int| inv(p) * (s[p] - z)
}

/// Splitting off the last position `z`: with `q` the quotient of `c` by `x - z`,
/// `L(s, c) = c(z) * L(s, 1) - z * L(s', q)`, where `s'` drops `z` and its
/// inverses absorb the factors `s[p] - z`.
proof fn lemma_lagrange_split(s: Seq<int>, c: Seq<int>, inv: spec_fn(int) -> int)
    requires
        s.len() >= 1,
    ensures
        lagrange_sum(s, c, inv) == horner(c, s.last()) * lagrange_sum(s, seq![1int], inv)
            - s.last() * lagrange_sum(
            s.drop_last(),
            div_linear(c, s.last()),
            absorb(inv, s, s.last()),
        ),
{
    let m = s.len() as int;
    let z = s.last();
    let s1 = s.drop_last();
    let g = div_linear(c, z);
    let inv1 = absorb(inv, s, z);
    let cz = horner(c, z);
    let term = |p: int| horner(c, s[p]) * pos_prod(s, p, 0) * inv(p);
    let one_term = |p: int| horner(seq![1int], s[p]) * pos_prod(s, p, 0) * inv(p);
    let base = |p: int| pos_prod(s, p, 0) * inv(p);
    let rest = |p: int| (s[p] - z) * horner(g, s[p]) * pos_prod(s, p, 0) * inv(p);
    let first = |p: int| cz * base(p);
    assert forall|p: int| 0 <= p < m implies #[trigger] term(p) == first(p) + rest(p) by {
        lemma_div_linear(c, z, s[p]);
        let cp = horner(c, s[p]);
        let gp = horner(g, s[p]);
        let n = pos_prod(s, p, 0);
        let i = inv(p);
        let d = s[p] - z;
        assert(cp * n * i == cz * (n * i) + d * gp * n * i) by (nonlinear_arith)
            requires
                cp == cz + d * gp,
        ;
    }
    lemma_sum_add(m, term, first, rest);
    assert forall|p: int| 0 <= p < m implies #[trigger] one_term(p) == base(p) by {
        let one = seq![1int];
        assert(one.drop_first().len() == 0);
        assert(horner(one.drop_first(), s[p]) == 0);
        assert(horner(one, s[p]) == 1);
    }
    lemma_sum_ext(m, one_term, base);
    lemma_sum_scale(m, first, cz, base);
    let rest1 = |p: int| horner(g, s1[p]) * pos_prod(s1, p, 0) * inv1(p);
    let rest_neg = |p: int| -z * rest1(p);
    assert forall|p: int| 0 <= p < m - 1 implies #[trigger] rest(p) == rest_neg(p) by {
        assert(s1[p] == s[p]);
        let n1 = pos_prod(s1, p, 0);
        let gp = horner(g, s[p]);
        let i = inv(p);
        let d = s[p] - z;
        assert(pos_prod(s, p, 0) == n1 * (0 - z));
        assert(d * gp * (n1 * (0 - z)) * i == -z * (gp * n1 * (i * d))) by (nonlinear_arith);
    }
    let gl = horner(g, s[m - 1]);
    let nl = pos_prod(s, m - 1, 0);
    let il = inv(m - 1);
    assert((s[m - 1] - z) * gl * nl * il == 0) by (nonlinear_arith)
        requires
            s[m - 1] == z,
    ;
    assert(sum_range(m, rest) == sum_range(m - 1, rest) + rest(m - 1));
    lemma_sum_ext(m - 1, rest, rest_neg);
    lemma_sum_scale(m - 1, rest_neg, -z, rest1);
    assert(lagrange_sum(s1, g, inv1) == sum_range(m - 1, rest1));
    assert(lagrange_sum(s, c, inv) == sum_range(m, term));
    assert(lagrange_sum(s, seq![1int], inv) == sum_range(m, one_term));
    assert(sum_range(m, term) == sum_range(m, first) + sum_range(m, rest));
    assert(sum_range(m, rest) == -z * sum_range(m - 1, rest1));
    assert(sum_range(m, first) == cz * sum_range(m, one_term));
    let s1sum = sum_range(m - 1, rest1);
    assert(-z * s1sum == -(z * s1sum)) by (nonlinear_arith);
}

/// Congruent parts give congruent combinations `u * a - v * b`.
proof fn lemma_modr_combination(u: int, a: int, a1: int, v: int, b: int, b1: int)
    requires
        modr(a) == modr(a1),
        modr(b) == modr(b1),
    ensures
        modr(u * a - v * b) == modr(u * a1 - v * b1),
{
    lemma_modr_mul(u, a);
    lemma_modr_mul(u, a1);
    lemma_modr_mul(v, b);
    lemma_modr_mul(v, b1);
    lemma_modr_sub(u * a, v * b);
    lemma_modr_sub(u * a1, v * b1);
}

/// Lagrange interpolation to zero: when `inv(p)` is an inverse of the `p`-th
/// denominator for every position, interpolating from the positions `s` gives
/// the value at zero of every polynomial with at most as many coefficients as
/// there are positions.
pub proof fn lemma_lagrange_sum_at_zero(s: Seq<int>, c: Seq<int>, inv: spec_fn(int) -> int)
    requires
        c.len() <= s.len(),
        forall|p: int| 0 <= p < s.len() ==> #[trigger] modr(pos_prod(s, p, s[p]) * inv(p)) == 1,
    ensures
        modr(lagrange_sum(s, c, inv)) == modr(horner(c, 0)),
    decreases s.len(),
{
    let m = s.len() as int;
    if m == 0 {
        assert(horner(c, 0) == 0);
    } else if m == 1 {
        let y = s[0];
        assert(pos_prod(s.drop_last(), 0, 0) == 1);
        assert(pos_prod(s.drop_last(), 0, y) == 1);
        assert(pos_prod(s, 0, 0) == 1);
        assert(pos_prod(s, 0, y) == 1);
        assert(modr(1 * inv(0)) == 1);
        if c.len() == 1 {
            assert(horner(c.drop_first(), y) == 0);
            assert(horner(c.drop_first(), 0) == 0);
        }
        let v = horner(c, 0);
        assert(horner(c, y) == v);
        let f = |p: int| horner(c, s[p]) * pos_prod(s, p, 0) * inv(p);
        assert(lagrange_sum(s, c, inv) == sum_range(1, f));
        assert(sum_range(1, f) == sum_range(0, f) + f(0));
        assert(lagrange_sum(s, c, inv) == v * 1 * inv(0));
        lemma_modr_mul(v, inv(0));
        assert(v * 1 * inv(0) == v * inv(0)) by (nonlinear_arith);
        lemma_modr_idem(v);
    } else {
        let z = s.last();
        let s1 = s.drop_last();
        let inv1 = absorb(inv, s, z);
        assert forall|p: int| 0 <= p < s1.len() implies #[trigger] modr(
            pos_prod(s1, p, s1[p]) * inv1(p),
        ) == 1 by {
            assert(s1[p] == s[p]);
            let d1 = pos_prod(s1, p, s[p]);
            assert(pos_prod(s, p, s[p]) == d1 * (s[p] - z));
            assert(d1 * (inv(p) * (s[p] - z)) == d1 * (s[p] - z) * inv(p)) by (nonlinear_arith);
            assert(modr(pos_prod(s, p, s[p]) * inv(p)) == 1);
        }
        // The coefficients sum to one, shown with the product of `x - s[q]` over `s'`.
        let pp = prod_poly(s1);
        lemma_prod_poly(s1, m - 1, z);
        lemma_prod_poly(s1, m - 1, 0);
        lemma_div_linear(pp, z, 0);
        let gp = div_linear(pp, z);
        lemma_lagrange_sum_at_zero(s1, gp, inv1);
        lemma_lagrange_split(s, pp, inv);
        let dz = horner(pp, z);
        let p0 = horner(pp, 0);
        let il = inv(m - 1);
        assert(pos_prod(s, m - 1, z) == pos_prod(s1, m - 1, z));
        assert(pos_prod(s, m - 1, 0) == pos_prod(s1, m - 1, 0));
        assert(modr(dz * il) == 1);
        let term = |p: int| horner(pp, s[p]) * pos_prod(s, p, 0) * inv(p);
        assert forall|p: int| 0 <= p < m implies #[trigger] term(p) == if p == m - 1 {
            dz * p0 * il
        } else {
            0
        } by {
            if p < m - 1 {
                lemma_prod_poly(s1, m - 1, s[p]);
                assert(s1[p] == s[p]);
                lemma_pos_prod_root(s1, m - 1, p);
                let n = pos_prod(s, p, 0);
                let i = inv(p);
                assert(horner(pp, s[p]) * n * i == 0) by (nonlinear_arith)
                    requires
                        horner(pp, s[p]) == 0,
                ;
            }
        }
        lemma_sum_single(m, m - 1, dz * p0 * il, term);
        let l_pp = lagrange_sum(s, pp, inv);
        let l1 = lagrange_sum(s, seq![1int], inv);
        let s_pp = lagrange_sum(s1, gp, inv1);
        let g0 = horner(gp, 0);
        // L(s, pp) = dz * p0 * il = p0 modulo r
        assert(dz * p0 * il == (dz * il) * p0) by (nonlinear_arith);
        lemma_modr_mul(dz * il, p0);
        assert(modr(l_pp) == modr(p0));
        // hence dz * L(s, 1) = dz modulo r
        assert(l_pp == dz * l1 - z * s_pp);
        lemma_modr_combination(dz, l1, l1, z, s_pp, g0);
        assert(p0 == dz * 1 - z * g0);
        lemma_modr_add(dz * l1 - z * g0, z * g0);
        lemma_modr_add(dz * 1 - z * g0, z * g0);
        assert(modr(dz * l1) == modr(dz));
        // multiplying by the inverse of dz: L(s, 1) = 1 modulo r
        lemma_modr_mul(il, dz * l1);
        lemma_modr_mul(il, dz);
        assert(il * (dz * l1) == (dz * il) * l1) by (nonlinear_arith);
        assert(il * dz == dz * il) by (nonlinear_arith);
        lemma_modr_mul(dz * il, l1);
        lemma_modr_small(1);
        assert(modr(l1) == 1);
        // the general polynomial
        let gc = div_linear(c, z);
        lemma_div_linear(c, z, 0);
        lemma_lagrange_sum_at_zero(s1, gc, inv1);
        lemma_lagrange_split(s, c, inv);
        let cz = horner(c, z);
        let sc = lagrange_sum(s1, gc, inv1);
        lemma_modr_combination(cz, l1, 1, z, sc, horner(gc, 0));
        assert(horner(c, 0) == cz * 1 - z * horner(gc, 0));
    }
}

} // verus!
