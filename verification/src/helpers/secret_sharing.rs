//! Shamir secret sharing over the scalar field and Lagrange coefficients.
use crate::field::{
    field_order, finv, fmul, lemma_modr_add, lemma_modr_idem, lemma_modr_mul,
    lemma_modr_small, lemma_scalar_in_field, modr, scalar_add, scalar_from_u64, scalar_inverse,
    scalar_mul, scalar_random, scalar_sub, Scalar,
};
use crate::helpers::polynomial::{
    horner, lemma_lagrange_sum_at_zero, lemma_pos_prod_shift, lemma_shift_poly, pos_prod,
    shift_poly, shift_positions,
};
use crate::summation::{lemma_sum_congruent, lemma_sum_ext, sum_range};
use rand_xorshift::XorShiftRng;
use vstd::prelude::*;

verus! {

broadcast use lemma_scalar_in_field;

/// The product over the entries `j` of `indices` that differ from `e` of `x - j`.
pub open spec fn lagrange_product(indices: Seq<usize>, e: int, x: int) -> int
    decreases indices.len(),
{
    if indices.len() == 0 {
        1
    } else {
        let rest = lagrange_product(indices.drop_last(), e, x);
        if indices.last() != e {
            rest * (x - indices.last())
        } else {
            rest
        }
    }
}

/// The Lagrange coefficient applied to the evaluation at `e` when interpolating
/// to `x` from the evaluations at `indices`:
/// the product of `(x - j) / (e - j)` over the other entries `j`.
pub open spec fn lagrange_coefficient(indices: Seq<usize>, e: int, x: int) -> int {
    fmul(modr(lagrange_product(indices, e, x)), finv(modr(lagrange_product(indices, e, e)) as nat) as int)
}

/// The Lagrange coefficients for an interpolation to zero, one per entry of `indices`.
pub open spec fn lagrange_zero_coefficients(indices: Seq<usize>) -> Seq<int> {
    Seq::new(indices.len(), |i: int| lagrange_coefficient(indices, indices[i] as int, 0))
}

/// The Lagrange coefficient at `e` can be computed: its denominator is not zero in the field.
pub open spec fn lagrange_defined(indices: Seq<usize>, e: int) -> bool {
    modr(lagrange_product(indices, e, e)) != 0
}

/// `b^e` over the integers.
pub open spec fn power(b: int, e: nat) -> int
    decreases e,
{
    if e == 0 {
        1
    } else {
        power(b, (e - 1) as nat) * b
    }
}

/// The polynomial with coefficients `coeffs` (constant term first), evaluated at `x`.
pub open spec fn poly_eval(coeffs: Seq<int>, x: int) -> int
    decreases coeffs.len(),
{
    if coeffs.len() == 0 {
        0
    } else {
        poly_eval(coeffs.drop_last(), x) + coeffs.last() * power(x, (coeffs.len() - 1) as nat)
    }
}

/// `shares[i]` is the polynomial with constant term `secret` and the further
/// coefficients `coeffs`, evaluated at `i + 1`.
pub open spec fn is_shamir_sharing(secret: int, shares: Seq<Scalar>, coeffs: Seq<int>) -> bool {
    forall|i: int|
        0 <= i < shares.len() ==> #[trigger] shares[i]@ == modr(
            poly_eval(seq![secret] + coeffs, i + 1),
        )
}

/// Every position of `indices` has a Lagrange coefficient.
pub open spec fn lagrange_set_defined(indices: Seq<usize>) -> bool {
    forall|i: int| 0 <= i < indices.len() ==> lagrange_defined(indices, #[trigger] indices[i] as int)
}

/// Computes the Lagrange coefficient to be applied to the evaluation of the polynomial
/// at `evaluation_x` for an interpolation to `interpolation_x`, when the
/// evaluated positions are `indices`.  The denominator is a product of
/// differences of distinct `usize` values, each nonzero below the field order,
/// so it is nonzero and invertible, and so is each difference.
pub fn get_lagrange_coefficient_fr(
    indices: &Vec<usize>,
    evaluation_x: usize,
    interpolation_x: usize,
) -> (r: Scalar)
    ensures
        lagrange_defined(indices@, evaluation_x as int),
        r@ == lagrange_coefficient(indices@, evaluation_x as int, interpolation_x as int),
        forall|q: int|
            0 <= q < indices.len() && #[trigger] indices[q] != evaluation_x ==> is_unit(
                evaluation_x - indices[q],
            ),
        interpolation_x == evaluation_x ==> r@ == 1,
        interpolation_x != evaluation_x && indices@.contains(interpolation_x) ==> r@ == 0,
{
    let mut top = Scalar::one();
    let mut bot = Scalar::one();
    let ghost e = evaluation_x as int;
    let ghost x = interpolation_x as int;
    for i in 0..indices.len()
        invariant
            top@ == modr(lagrange_product(indices@.take(i as int), e, x)),
            bot@ == modr(lagrange_product(indices@.take(i as int), e, e)),
            bot@ != 0,
            e == evaluation_x,
            x == interpolation_x,
    {
        let index = indices[i];
        proof {
            assert(indices@.take(i + 1).drop_last() =~= indices@.take(i as int));
        }
        if index != evaluation_x {
            let tmp_top = scalar_sub(
                &scalar_from_u64(interpolation_x as u64),
                &scalar_from_u64(index as u64),
            );
            let ghost old_top = top@;
            top = scalar_mul(&top, &tmp_top);
            let tmp_bot = scalar_sub(
                &scalar_from_u64(evaluation_x as u64),
                &scalar_from_u64(index as u64),
            );
            let ghost old_bot = bot@;
            bot = scalar_mul(&bot, &tmp_bot);
            proof {
                let pt = lagrange_product(indices@.take(i as int), e, x);
                let pb = lagrange_product(indices@.take(i as int), e, e);
                lemma_modr_mul(pt, x - index);
                lemma_modr_mul(pb, e - index);
                // distinct values below 2^64 differ by a nonzero field element
                let d = e - index;
                assert(-18446744073709551616 < d < 18446744073709551616);
                assert(modr(d) != 0) by {
                    if d > 0 {
                        lemma_modr_small(d);
                    } else {
                        lemma_modr_add(d, field_order() as int);
                        vstd::arithmetic::div_mod::lemma_mod_self_0(field_order() as int);
                        lemma_modr_small(d + field_order());
                    }
                }
            }
        }
    }
    proof {
        assert(indices@.take(indices.len() as int) =~= indices@);
    }
    match scalar_inverse(&bot) {
        Some(inv) => {
            proof {
                let p = lagrange_product(indices@, e, e);
                lemma_modr_mul(p, inv@ as int);
                assert(fmul(p, inv@ as int) == 1);
                lemma_product_factor_units(indices@, e);
                if x != e && indices@.contains(interpolation_x) {
                    lemma_lagrange_product_root(indices@, e, x);
                    assert(top@ == 0);
                    lemma_modr_small(0);
                    assert(0 * (inv@ as int) == 0);
                    assert(fmul(top@ as int, inv@ as int) == 0);
                }
            }
            scalar_mul(&top, &inv)
        },
        None => top,
    }
}

/// The product of the differences `x - j` vanishes when `x` is one of the `j`.
proof fn lemma_lagrange_product_root(indices: Seq<usize>, e: int, x: int)
    requires
        x != e,
        exists|q: int| 0 <= q < indices.len() && indices[q] == x,
    ensures
        lagrange_product(indices, e, x) == 0,
    decreases indices.len(),
{
    let d = indices.drop_last();
    let rest = lagrange_product(d, e, x);
    if indices.last() == x {
        assert(rest * (x - indices.last()) == 0) by (nonlinear_arith)
            requires
                indices.last() == x,
        ;
    } else {
        let q = choose|q: int| 0 <= q < indices.len() && indices[q] == x;
        assert(d[q] == x);
        lemma_lagrange_product_root(d, e, x);
        if indices.last() != e {
            assert(rest * (x - indices.last()) == 0) by (nonlinear_arith)
                requires
                    rest == 0,
            ;
        }
    }
}

/// When the product of the differences `e - j` is invertible, so is each difference.
proof fn lemma_product_factor_units(indices: Seq<usize>, e: int)
    requires
        is_unit(lagrange_product(indices, e, e)),
    ensures
        forall|q: int| 0 <= q < indices.len() && #[trigger] indices[q] != e ==> is_unit(e - indices[q]),
    decreases indices.len(),
{
    if indices.len() > 0 {
        let d = indices.drop_last();
        let rest = lagrange_product(d, e, e);
        if indices.last() != e {
            let f = e - indices.last();
            let whole = lagrange_product(indices, e, e);
            assert(whole == rest * f);
            let y = choose|y: int| fmul(whole, y) == 1;
            assert(rest * f * y == rest * (f * y)) by (nonlinear_arith);
            assert(rest * f * y == f * (rest * y)) by (nonlinear_arith);
            assert(fmul(rest, f * y) == 1);
            assert(fmul(f, rest * y) == 1);
        }
        lemma_product_factor_units(d, e);
        assert forall|q: int| 0 <= q < indices.len() && #[trigger] indices[q] != e implies is_unit(
            e - indices[q],
        ) by {
            if q < indices.len() - 1 {
                assert(d[q] == indices[q]);
            }
        }
    }
}

/// The Lagrange coefficient for the evaluation at `evaluation_x` when interpolating to zero.
pub fn get_0_lagrange_coefficient_fr(indices: &Vec<usize>, evaluation_x: usize) -> (r: Scalar)
    ensures
        lagrange_defined(indices@, evaluation_x as int),
        r@ == lagrange_coefficient(indices@, evaluation_x as int, 0),
        forall|q: int|
            0 <= q < indices.len() && #[trigger] indices[q] != evaluation_x ==> is_unit(
                evaluation_x - indices[q],
            ),
{
    get_lagrange_coefficient_fr(indices, evaluation_x, 0)
}

/// The Lagrange coefficients of all positions in `indices` for an
/// interpolation to zero.  Positions without repetition are then known to
/// differ by invertible elements.
pub fn get_0_lagrange_coefficient_set_fr(indices: &Vec<usize>) -> (r: Vec<Scalar>)
    ensures
        r.len() == indices.len(),
        lagrange_set_defined(indices@),
        forall|i: int|
            0 <= i < indices.len() ==> #[trigger] r[i]@ == lagrange_coefficient(
                indices@,
                indices[i] as int,
                0,
            ),
        r@.map_values(|c: Scalar| c@ as int) == lagrange_zero_coefficients(indices@),
        indices@.no_duplicates() ==> distinct_positions(indices@),
        indices@.no_duplicates() && indices.len() > 0 ==> modr(
            sum_range(indices.len() as int, |i: int| r@[i]@ as int),
        ) == 1,
{
    let mut r: Vec<Scalar> = Vec::new();
    for i in 0..indices.len()
        invariant
            r.len() == i,
            forall|j: int|
                0 <= j < i ==> #[trigger] r[j]@ == lagrange_coefficient(indices@, indices[j] as int, 0),
            forall|j: int| 0 <= j < i ==> lagrange_defined(indices@, #[trigger] indices[j] as int),
            forall|j: int, q: int|
                #![trigger indices[j], indices[q]]
                0 <= j < i && 0 <= q < indices.len() && indices[q] != indices[j] ==> is_unit(
                    indices[j] - indices[q],
                ),
    {
        r.push(get_0_lagrange_coefficient_fr(indices, indices[i]));
    }
    assert(r@.map_values(|c: Scalar| c@ as int) =~= lagrange_zero_coefficients(indices@));
    proof {
        if indices@.no_duplicates() && indices.len() > 0 {
            // the coefficients interpolate the constant polynomial one
            let one = seq![1int];
            lemma_lagrange_interpolation(indices@, one, 0);
            assert forall|x: int| #[trigger] poly_eval(one, x) == 1 by {
                assert(one.drop_last().len() == 0);
                assert(poly_eval(one.drop_last(), x) == 0);
                assert(power(x, 0) == 1);
            }
            lemma_sum_ext(
                indices.len() as int,
                |i: int| r@[i]@ as int,
                |p: int|
                    lagrange_coefficient(indices@, indices@[p] as int, 0) * poly_eval(
                        one,
                        indices@[p] as int,
                    ),
            );
        }
    }
    r
}

/// A `t`-out-of-`n` Shamir sharing of a random element: the element and the
/// evaluations at `1..=n` of a random polynomial of degree `t - 1` with that
/// element as constant term.
pub fn get_shamir_shared_random_element(rng: &mut XorShiftRng, t: usize, n: usize) -> (r: (
    Scalar,
    Vec<Scalar>,
))
    requires
        t >= 1,
    ensures
        r.1.len() == n,
        exists|coeffs: Seq<int>|
            coeffs.len() == t - 1 && #[trigger] is_shamir_sharing(r.0@ as int, r.1@, coeffs),
{
    let secret_key_element = scalar_random(rng);
    let mut coefficients: Vec<Scalar> = Vec::new();
    for _j in 0..(t - 1)
        invariant
            coefficients.len() == _j,
    {
        coefficients.push(scalar_random(rng));
    }
    let ghost coeffs = coefficients@.map_values(|c: Scalar| c@ as int);
    let ghost full = seq![secret_key_element@ as int] + coeffs;
    let mut shares: Vec<Scalar> = Vec::new();
    for i in 0..n
        invariant
            coefficients.len() == t - 1,
            coeffs == coefficients@.map_values(|c: Scalar| c@ as int),
            full == seq![secret_key_element@ as int] + coeffs,
            shares.len() == i,
            forall|j: int| 0 <= j < i ==> #[trigger] shares[j]@ == modr(poly_eval(full, j + 1)),
    {
        let share = shamir_share(&secret_key_element, &coefficients, i);
        shares.push(share);
    }
    let r = (secret_key_element, shares);
    assert(coeffs.len() == t - 1);
    assert(is_shamir_sharing(r.0@ as int, r.1@, coeffs));
    r
}

/// The polynomial with constant term `secret` and further coefficients
/// `coefficients`, evaluated at `i + 1`.
fn shamir_share(secret: &Scalar, coefficients: &Vec<Scalar>, i: usize) -> (share: Scalar)
    requires
        i < usize::MAX,
    ensures
        share@ == modr(
            poly_eval(
                seq![secret@ as int] + coefficients@.map_values(|c: Scalar| c@ as int),
                i + 1,
            ),
        ),
{
    let ghost coeffs = coefficients@.map_values(|c: Scalar| c@ as int);
    let ghost x = i + 1;
    let mut share = *secret;
    let mut incr_exponentiation = Scalar::one();
    proof {
        assert(seq![secret@ as int] + coeffs.take(0) =~= seq![secret@ as int]);
        assert(seq![secret@ as int].drop_last() =~= Seq::<int>::empty());
        reveal_with_fuel(poly_eval, 2);
        assert(seq![secret@ as int].last() == secret@ as int);
        assert(poly_eval(seq![secret@ as int], x) == secret@ as int * power(x, 0));
        lemma_modr_small(secret@ as int);
    }
    for j in 0..coefficients.len()
        invariant
            x == i + 1,
            i < usize::MAX,
            coeffs == coefficients@.map_values(|c: Scalar| c@ as int),
            incr_exponentiation@ == modr(power(x, j as nat)),
            share@ == modr(poly_eval(seq![secret@ as int] + coeffs.take(j as int), x)),
    {
        let ghost old_incr = incr_exponentiation@;
        let ghost old_share = share@;
        incr_exponentiation = scalar_mul(&incr_exponentiation, &scalar_from_u64((i + 1) as u64));
        let tmp = scalar_mul(&coefficients[j], &incr_exponentiation);
        share = scalar_add(&share, &tmp);
        proof {
            let pw = power(x, j as nat);
            lemma_modr_mul(pw, x);
            assert(power(x, (j + 1) as nat) == pw * x);
            let c = coefficients[j as int]@ as int;
            let p = poly_eval(seq![secret@ as int] + coeffs.take(j as int), x);
            lemma_modr_mul(c, power(x, (j + 1) as nat));
            lemma_modr_add(p, c * power(x, (j + 1) as nat));
            let full = seq![secret@ as int] + coeffs.take(j + 1);
            assert(full.drop_last() =~= seq![secret@ as int] + coeffs.take(j as int));
            assert(full.last() == c);
        }
    }
    proof {
        assert(coeffs.take(coefficients.len() as int) =~= coeffs);
    }
    share
}

/// `a` has a multiplicative inverse modulo the field order.
pub open spec fn is_unit(a: int) -> bool {
    exists|y: int| fmul(a, y) == 1
}

/// Any two positions of `indices` differ by an invertible field element; as
/// the field order is prime, this says that they are distinct modulo it.
pub open spec fn distinct_positions(indices: Seq<usize>) -> bool {
    forall|i: int, j: int|
        #![trigger indices[i], indices[j]]
        0 <= i < indices.len() && 0 <= j < indices.len() && i != j ==> is_unit(
            indices[i] - indices[j],
        )
}

/// The positions as integers.
spec fn positions(indices: Seq<usize>) -> Seq<int> {
    indices.map_values(|v: usize| v as int)
}

/// Evaluation by powers and by Horner's rule agree.
proof fn lemma_poly_eval_horner(c: Seq<int>, x: int)
    ensures
        poly_eval(c, x) == horner(c, x),
    decreases c.len(),
{
    if c.len() > 0 {
        lemma_poly_eval_horner(c.drop_last(), x);
        lemma_horner_last(c, x);
    }
}

/// Horner's rule, peeling off the highest coefficient.
proof fn lemma_horner_last(c: Seq<int>, x: int)
    requires
        c.len() > 0,
    ensures
        horner(c, x) == horner(c.drop_last(), x) + c.last() * power(x, (c.len() - 1) as nat),
    decreases c.len(),
{
    if c.len() == 1 {
        assert(horner(c.drop_first(), x) == 0);
        assert(horner(c.drop_last(), x) == 0);
        assert(power(x, 0) == 1);
    } else {
        let c1 = c.drop_first();
        lemma_horner_last(c1, x);
        assert(c1.drop_last() =~= c.drop_last().drop_first());
        assert(c1.last() == c.last());
        let k = (c.len() - 2) as nat;
        assert(power(x, k + 1) == power(x, k) * x);
        let h = horner(c1.drop_last(), x);
        let pk = power(x, k);
        assert(c[0] + x * (h + c.last() * pk) == c[0] + x * h + c.last() * (pk * x))
            by (nonlinear_arith);
        assert(c.drop_last()[0] == c[0]);
    }
}

/// For positions without repetition, the product over the entries other than
/// the one at position `p` is the product over the other positions.
proof fn lemma_lagrange_product_positions(indices: Seq<usize>, e: int, p: int, x: int)
    requires
        indices.no_duplicates(),
        0 <= p < indices.len() ==> indices[p] == e,
        forall|q: int| 0 <= q < indices.len() && q != p ==> #[trigger] indices[q] != e,
    ensures
        lagrange_product(indices, e, x) == pos_prod(positions(indices), p, x),
    decreases indices.len(),
{
    if indices.len() > 0 {
        let d = indices.drop_last();
        assert(positions(indices).drop_last() =~= positions(d));
        assert forall|q: int| 0 <= q < d.len() && q != p implies #[trigger] d[q] != e by {
            assert(d[q] == indices[q]);
        }
        lemma_lagrange_product_positions(d, e, p, x);
    }
}

/// A product of invertible factors is invertible.
proof fn lemma_unit_product(s: Seq<int>, p: int, x: int)
    requires
        forall|q: int| 0 <= q < s.len() && q != p ==> is_unit(x - #[trigger] s[q]),
    ensures
        is_unit(pos_prod(s, p, x)),
    decreases s.len(),
{
    if s.len() == 0 {
        lemma_modr_small(1);
        assert(fmul(1, 1) == 1);
    } else {
        lemma_unit_product(s.drop_last(), p, x);
        let rest = pos_prod(s.drop_last(), p, x);
        let y1 = choose|y: int| fmul(rest, y) == 1;
        if s.len() - 1 != p {
            let f = x - s.last();
            assert(is_unit(f));
            let y2 = choose|y: int| fmul(f, y) == 1;
            lemma_modr_mul(rest * y1, f * y2);
            assert((rest * f) * (y1 * y2) == (rest * y1) * (f * y2)) by (nonlinear_arith);
            lemma_modr_small(1);
            assert(fmul(rest * f, y1 * y2) == 1);
        }
    }
}

/// `finv` gives an inverse of every invertible element.
proof fn lemma_finv_inverts(a: int)
    requires
        is_unit(a),
    ensures
        modr(a * finv(modr(a) as nat)) == 1,
{
    let y = choose|y: int| fmul(a, y) == 1;
    lemma_modr_idem(a);
    lemma_modr_idem(y);
    let w = modr(y) as nat;
    lemma_modr_mul(a, y);
    assert(w < field_order() && fmul(modr(a) as nat as int, w as int) == 1);
    let v = finv(modr(a) as nat);
    lemma_modr_mul(a, v as int);
}

/// Lagrange interpolation from distinct positions recovers the value at any
/// point `x` of every polynomial with at most as many coefficients as there
/// are positions.
pub proof fn lemma_lagrange_interpolation(indices: Seq<usize>, poly: Seq<int>, x: int)
    requires
        poly.len() <= indices.len(),
        distinct_positions(indices),
    ensures
        modr(
            sum_range(
                indices.len() as int,
                |p: int|
                    lagrange_coefficient(indices, indices[p] as int, x) * poly_eval(
                        poly,
                        indices[p] as int,
                    ),
            ),
        ) == modr(poly_eval(poly, x)),
{
    let m = indices.len() as int;
    let ys = positions(indices);
    let zs = shift_positions(ys, x);
    let g = shift_poly(poly, x);
    lemma_shift_poly(poly, x, 0);
    assert forall|i: int, j: int| 0 <= i < m && 0 <= j < m && i != j implies indices[i]
        != indices[j] by {
        assert(is_unit(indices[i] - indices[j]));
        if indices[i] == indices[j] {
            let d = indices[i] - indices[j];
            let y = choose|y: int| fmul(d, y) == 1;
            assert(fmul(0, y) == 0);
        }
    }
    assert(indices.no_duplicates());
    let inv = |p: int| finv(modr(pos_prod(ys, p, ys[p])) as nat) as int;
    assert forall|p: int| 0 <= p < zs.len() implies #[trigger] modr(pos_prod(zs, p, zs[p]) * inv(p))
        == 1 by {
        assert forall|q: int| 0 <= q < ys.len() && q != p implies is_unit(
            ys[p] - #[trigger] ys[q],
        ) by {
            assert(is_unit(indices[p] - indices[q]));
        }
        lemma_unit_product(ys, p, ys[p]);
        lemma_finv_inverts(pos_prod(ys, p, ys[p]));
        lemma_pos_prod_shift(ys, x, p, ys[p]);
    }
    lemma_lagrange_sum_at_zero(zs, g, inv);
    let f = |p: int|
        lagrange_coefficient(indices, indices[p] as int, x) * poly_eval(poly, indices[p] as int);
    let h = |p: int| horner(g, zs[p]) * pos_prod(zs, p, 0) * inv(p);
    assert forall|p: int| 0 <= p < m implies #[trigger] modr(f(p)) == modr(h(p)) by {
        let e = indices[p] as int;
        lemma_lagrange_product_positions(indices, e, p, x);
        lemma_lagrange_product_positions(indices, e, p, e);
        lemma_poly_eval_horner(poly, e);
        lemma_shift_poly(poly, x, e - x);
        lemma_pos_prod_shift(ys, x, p, x);
        let n = pos_prod(ys, p, x);
        let i = inv(p);
        let v = horner(poly, e);
        assert(ys[p] == e);
        assert(zs[p] == e - x);
        assert(pos_prod(zs, p, 0) == n);
        assert(horner(g, zs[p]) == v);
        assert(lagrange_coefficient(indices, e, x) == modr(modr(n) * i));
        lemma_modr_mul(n, i);
        lemma_modr_mul(n * i, v);
        assert(v * n * i == (n * i) * v) by (nonlinear_arith);
    }
    lemma_sum_congruent(m, f, h);
    lemma_poly_eval_horner(poly, x);
    assert(horner(poly, 0 + x) == horner(poly, x));
}

/// At least `t` shares of a `t`-out-of-`n` Shamir sharing, taken at distinct
/// positions, interpolate to the secret.
pub proof fn lemma_shamir_reconstruction(
    secret: int,
    shares: Seq<Scalar>,
    coeffs: Seq<int>,
    indices: Seq<usize>,
)
    requires
        is_shamir_sharing(secret, shares, coeffs),
        coeffs.len() + 1 <= indices.len(),
        forall|p: int| 0 <= p < indices.len() ==> 1 <= #[trigger] indices[p] <= shares.len(),
        distinct_positions(indices),
    ensures
        modr(
            sum_range(
                indices.len() as int,
                |p: int|
                    lagrange_coefficient(indices, indices[p] as int, 0) * shares[indices[p]
                        - 1]@,
            ),
        ) == modr(secret),
{
    let poly = seq![secret] + coeffs;
    lemma_lagrange_interpolation(indices, poly, 0);
    let f = |p: int| lagrange_coefficient(indices, indices[p] as int, 0) * shares[indices[p] - 1]@;
    let g = |p: int|
        lagrange_coefficient(indices, indices[p] as int, 0) * poly_eval(poly, indices[p] as int);
    assert forall|p: int| 0 <= p < indices.len() implies #[trigger] modr(f(p)) == modr(g(p)) by {
        let i = indices[p] - 1;
        assert(shares[i]@ == modr(poly_eval(poly, i + 1)));
        lemma_modr_mul(lagrange_coefficient(indices, indices[p] as int, 0), poly_eval(poly, i + 1));
    }
    lemma_sum_congruent(indices.len() as int, f, g);
    lemma_poly_eval_horner(poly, 0);
    assert(poly.drop_first() =~= coeffs);
    assert(horner(poly, 0) == secret + 0 * horner(coeffs, 0));
}

} // verus!
