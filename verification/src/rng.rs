//! A seedable source of randomness for the simulation pipeline.
//!
//! Every random draw the engine makes goes through [`RandomSource`], so a
//! test can pin a run by seeding it.  Nothing is assumed about the
//! distribution of the draws beyond their range: every contract downstream
//! holds for every outcome.

use vstd::prelude::*;

verus! {

#[verifier::external_type_specification]
#[verifier::external_body]
pub struct ExStdRng(rand::rngs::StdRng);

/// A deterministic, seedable random generator.
pub struct RandomSource {
    rng: rand::rngs::StdRng,
}

impl RandomSource {
    /// Relies on rand's `SeedableRng::seed_from_u64` to build a `StdRng`
    /// from a word-sized seed.
    #[verifier::external_body]
    pub fn from_seed(seed: u64) -> (r: RandomSource) {
        RandomSource { rng: <rand::rngs::StdRng as rand::SeedableRng>::seed_from_u64(seed) }
    }

    /// Relies on rand's `Rng::gen_range` over `0..n`: it returns a value of
    /// that range and panics only when the range is empty.
    #[verifier::external_body]
    pub(crate) fn next_below(&mut self, n: u32) -> (r: u32)
        requires
            n >= 1,
        ensures
            r < n,
    {
        rand::Rng::gen_range(&mut self.rng, 0..n)
    }

    /// Relies on rand's `Rng::gen::<bool>`; nothing is promised of the
    /// outcome, so callers must be correct either way.
    #[verifier::external_body]
    pub(crate) fn next_bool(&mut self) -> (r: bool) {
        rand::Rng::gen::<bool>(&mut self.rng)
    }

    /// A uniform signed delta in `[-v, +v]`, built from one bounded draw.
    pub(crate) fn next_delta(&mut self, v: u32) -> (d: i64)
        requires
            v <= 0x4000_0000,
        ensures
            -(v as int) <= d <= v as int,
    {
        let span: u32 = 2 * v + 1;
        let x = self.next_below(span);
        x as i64 - v as i64
    }
}

} // verus!
