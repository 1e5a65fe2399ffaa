//! Randomness for the sampling constructors, drawn from the `rand` crate.
//!
//! Every worker owns its own [`RandomSource`], seeded explicitly, so no two
//! threads ever share generator state. Verified code learns nothing about a
//! draw beyond its range; every function that consumes randomness is verified
//! for every value the draw may take.

use rand::Rng;
use rand::SeedableRng;
use vstd::prelude::*;

verus! {

#[verifier::external_type_specification]
#[verifier::external_body]
pub struct ExStdRng(rand::rngs::StdRng);

/// Relies on rand's `StdRng::seed_from_u64`: builds a generator from a seed.
/// Nothing is assumed about the generator's state.
#[verifier::external_body]
fn std_rng_from_seed(seed: u64) -> rand::rngs::StdRng {
    rand::rngs::StdRng::seed_from_u64(seed)
}

/// Relies on rand's `Rng::gen_range` on an `i64` half-open range: the draw
/// lies in `[lo, hi)`; the call panics on an empty range, which the
/// precondition rules out.
#[verifier::external_body]
fn std_rng_range(rng: &mut rand::rngs::StdRng, lo: i64, hi: i64) -> (r: i64)
    requires
        lo < hi,
    ensures
        lo <= r < hi,
{
    rng.gen_range(lo..hi)
}

/// A seeded pseudo-random generator owned by one worker.
pub struct RandomSource {
    rng: rand::rngs::StdRng,
}

impl RandomSource {
    /// A generator deterministic in `seed` for a fixed build of the library.
    pub fn from_seed(seed: u64) -> RandomSource {
        RandomSource { rng: std_rng_from_seed(seed) }
    }

    /// A draw in the half-open range `[lo, hi)`.
    pub fn next_in(&mut self, lo: i64, hi: i64) -> (r: i64)
        requires
            lo < hi,
        ensures
            lo <= r < hi,
    {
        std_rng_range(&mut self.rng, lo, hi)
    }
}

} // verus!
