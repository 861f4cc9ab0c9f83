//! An injectable random source, backed by rand's standard generator.
//!
//! The engine's stochastic steps (selection sampling, crossover cuts,
//! mutation coins) draw from a [`RandomSource`] handed in by the caller, so a
//! test can seed it and reproduce a run. Parallel offspring construction
//! builds one entropy-seeded source per task instead of sharing a cursor.

use vstd::prelude::*;
use rand::Rng;
use rand::SeedableRng;

verus! {

#[verifier::external_type_specification]
#[verifier::external_body]
pub struct ExStdRng(rand::rngs::StdRng);

/// A source of uniformly distributed draws. Nothing is assumed about the
/// values beyond the stated ranges: every caller is verified for every
/// possible outcome.
pub struct RandomSource {
    inner: rand::rngs::StdRng,
}

impl RandomSource {
    /// Relies on rand's `SeedableRng::seed_from_u64`, which builds the
    /// generator deterministically from the seed.
    #[verifier::external_body]
    pub fn from_seed(seed: u64) -> (r: RandomSource) {
        RandomSource { inner: rand::rngs::StdRng::seed_from_u64(seed) }
    }

    /// Relies on rand's `SeedableRng::from_entropy`, which seeds the
    /// generator from operating-system entropy (and panics only when the
    /// operating system provides none).
    #[verifier::external_body]
    pub fn from_entropy() -> (r: RandomSource) {
        RandomSource { inner: rand::rngs::StdRng::from_entropy() }
    }

    /// Relies on rand's `Rng::gen_range(0..n)`: a value below `n`, drawn
    /// uniformly. It panics only on an empty range, which `n >= 1` rules
    /// out.
    #[verifier::external_body]
    pub(crate) fn next_below(&mut self, n: usize) -> (r: usize)
        requires
            n >= 1,
        ensures
            r < n,
    {
        self.inner.gen_range(0..n)
    }

    /// Relies on rand's `Rng::gen::<u8>()`: an arbitrary byte.
    #[verifier::external_body]
    pub(crate) fn next_byte(&mut self) -> (r: u8) {
        self.inner.gen()
    }
}

} // verus!
