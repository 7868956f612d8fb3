//! Seeded generation of random field elements.
use crate::field::{scalar_random, Scalar};
use rand_core::SeedableRng;
use rand_xorshift::XorShiftRng;
use vstd::prelude::*;

verus! {

/// `SeedableRng::from_seed` for `XorShiftRng`: the generator seeded with the
/// sixteen bytes (an all-zero seed is replaced by a fixed one).
#[verifier::external_body]
pub(crate) fn xorshift_from_seed(seed: [u8; 16]) -> XorShiftRng {
    XorShiftRng::from_seed(seed)
}

/// `k` vectors of `n` random field elements each.
pub fn get_random_elements(rng: &mut XorShiftRng, n: usize, k: usize) -> (r: Vec<Vec<Scalar>>)
    ensures
        r.len() == k,
        forall|i: int| 0 <= i < k ==> #[trigger] r[i].len() == n,
{
    let mut r: Vec<Vec<Scalar>> = Vec::new();
    for i in 0..k
        invariant
            r.len() == i,
            forall|j: int| 0 <= j < i ==> #[trigger] r[j].len() == n,
    {
        r.push(random_vector(rng, n));
    }
    r
}

/// `c` random field elements.
fn random_vector(rng: &mut XorShiftRng, c: usize) -> (r: Vec<Scalar>)
    ensures
        r.len() == c,
{
    let mut r: Vec<Scalar> = Vec::new();
    for _i in 0..c
        invariant
            r.len() == _i,
    {
        r.push(scalar_random(rng));
    }
    r
}

/// `c2` vectors of `c1` random field elements each, from a generator seeded with `seed_array`.
pub fn get_random_messages_from_seed(seed_array: [u8; 16], c1: usize, c2: usize) -> (r: Vec<
    Vec<Scalar>,
>)
    ensures
        r.len() == c2,
        forall|i: int| 0 <= i < c2 ==> #[trigger] r[i].len() == c1,
{
    let mut rng = xorshift_from_seed(seed_array);
    get_random_elements(&mut rng, c1, c2)
}

/// `c` random field elements, from a generator seeded with `seed_array`.
pub fn get_random_messages_from_seed_one_dim(seed_array: [u8; 16], c: usize) -> (r: Vec<Scalar>)
    ensures
        r.len() == c,
{
    let mut rng = xorshift_from_seed(seed_array);
    random_vector(&mut rng, c)
}

} // verus!
