//! Oblivious linear evaluation: additive sharings of products of field elements.
use crate::field::{fadd, field_order, fmul, fsub, lemma_scalar_in_field, scalar_mul, scalar_random, scalar_sub, Scalar};
use rand_xorshift::XorShiftRng;
use vstd::prelude::*;

verus! {

broadcast use lemma_scalar_in_field;

/// `pair` is an additive sharing of the product `x * y`.
pub open spec fn is_ole_pair(pair: (Scalar, Scalar), x: Scalar, y: Scalar) -> bool {
    fadd(pair.0@ as int, pair.1@ as int) == fmul(x@ as int, y@ as int)
}

/// Shape and correlation of an OLE table: `res[i_k][i_x][i_y]` shares
/// `x[i_k][i_x] * y[i_k][i_y]`.
pub open spec fn is_ole_table(
    res: Seq<Vec<Vec<(Scalar, Scalar)>>>,
    n: nat,
    k: nat,
    x: Seq<Vec<Scalar>>,
    y: Seq<Vec<Scalar>>,
) -> bool {
    &&& res.len() == k
    &&& forall|a: int| 0 <= a < k ==> #[trigger] res[a].len() == n
    &&& forall|a: int, b: int| 0 <= a < k && 0 <= b < n ==> #[trigger] res[a][b].len() == n
    &&& forall|a: int, b: int, c: int|
        0 <= a < k && 0 <= b < n && 0 <= c < n ==> is_ole_pair(
            #[trigger] res[a][b][c],
            x[a][b],
            y[a][c],
        )
}

/// Shape and correlation of a VOLE table: `res[i_k][i_x][i_y]` shares
/// `x[i_k][i_x] * y[i_y]`.
pub open spec fn is_vole_table(
    res: Seq<Vec<Vec<(Scalar, Scalar)>>>,
    n: nat,
    k: nat,
    x: Seq<Vec<Scalar>>,
    y: Seq<Scalar>,
) -> bool {
    &&& res.len() == k
    &&& forall|a: int| 0 <= a < k ==> #[trigger] res[a].len() == n
    &&& forall|a: int, b: int| 0 <= a < k && 0 <= b < n ==> #[trigger] res[a][b].len() == n
    &&& forall|a: int, b: int, c: int|
        0 <= a < k && 0 <= b < n && 0 <= c < n ==> is_ole_pair(
            #[trigger] res[a][b][c],
            x[a][b],
            y[c],
        )
}

/// For `k` presignatures and `n` parties, shares every product
/// `x[i_k][i_x] * y[i_k][i_y]`.  Party `i` owns the first components of
/// `res[i_s][i][j]` and the second components of `res[i_s][j][i]`.
pub fn make_all_parties_ole(
    rng: &mut XorShiftRng,
    n: usize,
    k: usize,
    x: Vec<Vec<Scalar>>,
    y: Vec<Vec<Scalar>>,
) -> (res: Vec<Vec<Vec<(Scalar, Scalar)>>>)
    requires
        x.len() == k,
        y.len() == k,
        forall|i: int| 0 <= i < k ==> #[trigger] x[i].len() == n,
        forall|i: int| 0 <= i < k ==> #[trigger] y[i].len() == n,
    ensures
        is_ole_table(res@, n as nat, k as nat, x@, y@),
{
    let mut res: Vec<Vec<Vec<(Scalar, Scalar)>>> = Vec::new();
    for i_k in 0..k
        invariant
            x.len() == k,
            y.len() == k,
            forall|i: int| 0 <= i < k ==> #[trigger] x[i].len() == n,
            forall|i: int| 0 <= i < k ==> #[trigger] y[i].len() == n,
            is_ole_table(res@, n as nat, i_k as nat, x@, y@),
    {
        let mut block: Vec<Vec<(Scalar, Scalar)>> = Vec::new();
        for i_x in 0..n
            invariant
                0 <= i_k < k,
                x.len() == k,
                y.len() == k,
                x[i_k as int].len() == n,
                y[i_k as int].len() == n,
                block.len() == i_x,
                forall|b: int| 0 <= b < i_x ==> #[trigger] block[b].len() == n,
                forall|b: int, c: int|
                    0 <= b < i_x && 0 <= c < n ==> is_ole_pair(
                        #[trigger] block[b][c],
                        x[i_k as int][b],
                        y[i_k as int][c],
                    ),
        {
            block.push(ole_row(rng, x[i_k][i_x], &y[i_k]));
        }
        res.push(block);
    }
    res
}

/// For `k` presignatures and `n` parties, shares every product
/// `x[i_k][i_x] * y[i_y]` of an element of one party with the scalar of another.
pub fn make_all_parties_vole(
    rng: &mut XorShiftRng,
    n: usize,
    k: usize,
    x: Vec<Vec<Scalar>>,
    y: Vec<Scalar>,
) -> (res: Vec<Vec<Vec<(Scalar, Scalar)>>>)
    requires
        x.len() == k,
        y.len() == n,
        forall|i: int| 0 <= i < k ==> #[trigger] x[i].len() == n,
    ensures
        is_vole_table(res@, n as nat, k as nat, x@, y@),
{
    let mut res: Vec<Vec<Vec<(Scalar, Scalar)>>> = Vec::new();
    for i_k in 0..k
        invariant
            x.len() == k,
            y.len() == n,
            forall|i: int| 0 <= i < k ==> #[trigger] x[i].len() == n,
            is_vole_table(res@, n as nat, i_k as nat, x@, y@),
    {
        let mut block: Vec<Vec<(Scalar, Scalar)>> = Vec::new();
        for i_x in 0..n
            invariant
                0 <= i_k < k,
                x.len() == k,
                y.len() == n,
                x[i_k as int].len() == n,
                block.len() == i_x,
                forall|b: int| 0 <= b < i_x ==> #[trigger] block[b].len() == n,
                forall|b: int, c: int|
                    0 <= b < i_x && 0 <= c < n ==> is_ole_pair(
                        #[trigger] block[b][c],
                        x[i_k as int][b],
                        y[c],
                    ),
        {
            block.push(ole_row(rng, x[i_k][i_x], &y));
        }
        res.push(block);
    }
    res
}

/// Shares `x * y[j]` for every `j`.
fn ole_row(rng: &mut XorShiftRng, x: Scalar, ys: &Vec<Scalar>) -> (row: Vec<(Scalar, Scalar)>)
    ensures
        row.len() == ys.len(),
        forall|c: int| 0 <= c < ys.len() ==> is_ole_pair(#[trigger] row[c], x, ys[c]),
{
    let mut row: Vec<(Scalar, Scalar)> = Vec::new();
    for i_y in 0..ys.len()
        invariant
            row.len() == i_y,
            forall|c: int| 0 <= c < i_y ==> is_ole_pair(#[trigger] row[c], x, ys[c]),
    {
        row.push(make_ole_single(rng, x, ys[i_y]));
    }
    row
}

/// Draws `u` at random and returns `(u, x * y - u)`, so that `u + v = x * y`.
pub fn make_ole_single(rng: &mut XorShiftRng, x: Scalar, y: Scalar) -> (r: (Scalar, Scalar))
    ensures
        r.1@ == fsub(fmul(x@ as int, y@ as int) as int, r.0@ as int),
        is_ole_pair(r, x, y),
{
    let u = scalar_random(rng);
    let v = scalar_mul(&x, &y);
    let v = scalar_sub(&v, &u);
    proof {
        let m = field_order() as int;
        let p = fmul(x@ as int, y@ as int) as int;
        vstd::arithmetic::div_mod::lemma_add_mod_noop_right(u@ as int, p - u@, m);
        vstd::arithmetic::div_mod::lemma_small_mod(p as nat, m as nat);
    }
    (u, v)
}

} // verus!
