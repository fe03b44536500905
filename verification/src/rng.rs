//! Randomness used by the simulator, drawn from the `rand` crate.

use vstd::prelude::*;
use rand::rngs::StdRng;
use rand::Rng;
use rand::SeedableRng;
use rand::seq::SliceRandom;

verus! {

/// The seeded pseudo random generator of the `rand` crate.
#[verifier::external_type_specification]
#[verifier::external_body]
pub struct ExStdRng(StdRng);

/// Builds a generator from a seed with `rand`'s `SeedableRng::seed_from_u64`.
/// Nothing is stated of its state.
#[verifier::external_body]
pub fn rng_from_seed(seed: u64) -> StdRng
{
    StdRng::seed_from_u64(seed)
}

/// Draws a value of the half-open range `low..high` with `rand`'s `Rng::gen_range`.
/// `rand` panics on an empty range, which `requires` leaves out; the value
/// depends on the generator's state, so only its range is stated.
#[verifier::external_body]
pub fn gen_range(rng: &mut StdRng, low: usize, high: usize) -> (r: usize)
    requires
        low < high,
    ensures
        low <= r < high,
{
    rng.gen_range(low..high)
}

/// Shuffles a vector in place with `rand`'s `SliceRandom::shuffle`, which only
/// swaps elements: the result holds the same elements, each as often.
/// Which order comes out depends on the generator and is not stated.
#[verifier::external_body]
pub fn shuffle<T>(v: &mut Vec<T>, rng: &mut StdRng)
    ensures
        final(v)@.len() == old(v)@.len(),
        final(v)@.to_multiset() == old(v)@.to_multiset(),
{
    v.as_mut_slice().shuffle(rng);
}

} // verus!
