//! Random choice of a signer set.
use rand::rngs::SmallRng;
use rand::seq::IteratorRandom;
use rand::SeedableRng;
use vstd::prelude::*;

verus! {

/// `rand::rngs::SmallRng`, the small fast generator used to pick signer sets.
#[verifier::external_type_specification]
#[verifier::external_body]
pub struct ExSmallRng(SmallRng);

/// `SeedableRng::from_seed` for `SmallRng`: the generator seeded with the sixteen bytes.
#[verifier::external_body]
fn small_rng_from_seed(seed: [u8; 16]) -> SmallRng {
    SmallRng::from_seed(seed)
}

/// `IteratorRandom::choose_multiple` over the candidates: a reservoir sample of
/// `min(amount, len)` candidates taken from distinct positions, so the result
/// as a multiset is contained in the candidates.  Which candidates, and in which
/// order, depends on the generator's state, which is not modelled.
#[verifier::external_body]
fn choose_multiple_of(rng: &mut SmallRng, candidates: &Vec<usize>, amount: usize) -> (r: Vec<usize>)
    requires
        amount * 8 <= isize::MAX,
    ensures
        r.len() == if amount < candidates.len() {
            amount
        } else {
            candidates.len()
        },
        r@.to_multiset().subset_of(candidates@.to_multiset()),
{
    candidates.iter().choose_multiple(rng, amount).into_iter().map(|x| *x).collect()
}

/// A random set of `t` distinct signer indices out of `1..=n` (all of them
/// when `t >= n`), from a generator seeded with `seed`.
pub fn random_signer_set(seed: [u8; 16], t: usize, n: usize) -> (r: Vec<usize>)
    requires
        t * 8 <= isize::MAX,
    ensures
        r.len() == if t < n {
            t
        } else {
            n
        },
        forall|i: int| 0 <= i < r.len() ==> 1 <= #[trigger] r[i] <= n,
        r@.no_duplicates(),
{
    let mut rng = small_rng_from_seed(seed);
    let mut candidates: Vec<usize> = Vec::new();
    for i in 0..n
        invariant
            candidates.len() == i,
            forall|j: int| 0 <= j < i ==> #[trigger] candidates[j] == j + 1,
    {
        candidates.push(i + 1);
    }
    let r = choose_multiple_of(&mut rng, &candidates, t);
    proof {
        broadcast use vstd::seq_lib::group_to_multiset_ensures;
        broadcast use vstd::multiset::group_multiset_axioms;

        assert(candidates@.no_duplicates());
        candidates@.lemma_multiset_has_no_duplicates();
        assert forall|x: usize| r@.to_multiset().contains(x) implies r@.to_multiset().count(x) == 1 by {
            assert(r@.to_multiset().count(x) <= candidates@.to_multiset().count(x));
        }
        r@.lemma_multiset_has_no_duplicates_conv();
        assert forall|i: int| 0 <= i < r.len() implies 1 <= #[trigger] r[i] <= n by {
            assert(r@.contains(r@[i]));
            assert(r@.to_multiset().count(r@[i]) > 0);
            assert(candidates@.to_multiset().count(r@[i]) > 0);
            assert(candidates@.contains(r@[i]));
        }
    }
    r
}

} // verus!
