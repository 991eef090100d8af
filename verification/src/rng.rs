//! The seeded random source.
//!
//! One seed gives one sequence of numbers. Nothing but ranges is claimed of
//! the numbers themselves.
use rand::rngs::SmallRng;
use rand::{Rng, SeedableRng};
use vstd::prelude::*;

verus! {

/// `rand::rngs::SmallRng`, a small seeded generator. Verus does not look
/// inside.
#[verifier::external_type_specification]
#[verifier::external_body]
pub struct ExSmallRng(SmallRng);

/// `SmallRng::seed_from_u64` makes a generator from a seed. Nothing is
/// claimed of the generator.
#[verifier::external_body]
pub(crate) fn rng_from_seed(seed: u64) -> (rng: SmallRng) {
    SmallRng::seed_from_u64(seed)
}

/// `Rng::random` draws a `u64`. Nothing is claimed of the number.
#[verifier::external_body]
pub(crate) fn random_u64(rng: &mut SmallRng) -> (number: u64) {
    rng.random()
}

/// `Rng::random_range` draws a number from the range `0..=max`, which is
/// never empty.
#[verifier::external_body]
pub(crate) fn random_up_to(rng: &mut SmallRng, max: usize) -> (number: usize)
    ensures
        number <= max,
{
    rng.random_range(0..=max)
}

} // verus!
