//! Deterministic pseudo-random draws, through the `rand` crate.
//!
//! The simulation owns one generator seeded at construction; each component
//! receives a generator seeded from it when inserted, so a whole run is a
//! function of the single seed. Nothing is assumed about the drawn values
//! beyond their range: every caller states what holds of every outcome.
use vstd::prelude::*;

verus! {

#[verifier::external_type_specification]
#[verifier::external_body]
pub struct ExStdRng(rand::rngs::StdRng);

/// Relies on rand's `SeedableRng::seed_from_u64`: builds a generator from a
/// 64-bit seed.
#[verifier::external_body]
pub(crate) fn rng_from_seed(seed: u64) -> rand::rngs::StdRng {
    <rand::rngs::StdRng as rand::SeedableRng>::seed_from_u64(seed)
}

/// Relies on rand's `RngCore::next_u64`. Nothing can be promised of the
/// drawn value.
#[verifier::external_body]
pub(crate) fn rng_next_u64(rng: &mut rand::rngs::StdRng) -> u64 {
    rand::RngCore::next_u64(rng)
}

/// Relies on rand's `RngCore::next_u32`. Nothing can be promised of the
/// drawn value.
#[verifier::external_body]
pub(crate) fn rng_next_u32(rng: &mut rand::rngs::StdRng) -> u32 {
    rand::RngCore::next_u32(rng)
}

/// Relies on rand's `Rng::gen_range` over `0..n`: a uniform draw below `n`.
/// `gen_range` panics on an empty range, so `n` must be positive.
#[verifier::external_body]
pub(crate) fn rng_below(rng: &mut rand::rngs::StdRng, n: u64) -> (r: u64)
    requires
        n >= 1,
    ensures
        r < n,
{
    rand::Rng::gen_range(rng, 0..n)
}

} // verus!
