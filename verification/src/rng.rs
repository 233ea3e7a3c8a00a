//! The injected source of randomness.
//!
//! The kernel never owns process-wide randomness: every sampling
//! function takes a `RandomSource`, seeded by the caller, so renders
//! are reproducible given the same seed. Draws come from the `rand`
//! crate; nothing is assumed of a draw beyond its range.

use vstd::prelude::*;

verus! {

#[verifier::external_type_specification]
#[verifier::external_body]
pub struct ExStdRng(rand::rngs::StdRng);

/// Relies on rand::SeedableRng::seed_from_u64: builds a generator
/// from a 64-bit seed.
#[verifier::external_body]
fn stdrng_from_seed(seed: u64) -> rand::rngs::StdRng {
    <rand::rngs::StdRng as rand::SeedableRng>::seed_from_u64(seed)
}

/// Relies on rand::Rng::gen_range over `0..n`: returns a draw below
/// `n`; the range is nonempty, so the call does not panic.
#[verifier::external_body]
fn stdrng_below(rng: &mut rand::rngs::StdRng, n: u64) -> (r: u64)
    requires
        n >= 1,
    ensures
        r < n,
{
    rand::Rng::gen_range(rng, 0..n)
}

/// A seeded pseudo-random generator, passed by callers into every
/// sampling function of the kernel.
pub struct RandomSource {
    rng: rand::rngs::StdRng,
}

impl RandomSource {
    /// A generator whose whole stream of draws is fixed by `seed`.
    pub fn from_seed(seed: u64) -> RandomSource {
        RandomSource { rng: stdrng_from_seed(seed) }
    }

    /// A uniform draw below `n`.
    pub fn next_below(&mut self, n: u64) -> (r: u64)
        requires
            n >= 1,
        ensures
            r < n,
    {
        stdrng_below(&mut self.rng, n)
    }
}

} // verus!
