//! The randomness source: rand's `StdRng` behind trusted declarations,
//! and verified reductions of raw draws to fixed-point ranges.
//!
//! Nothing is assumed about the values drawn; every contract downstream
//! holds for every possible outcome.

use rand::rngs::StdRng;
use rand::Rng;
use rand::SeedableRng;
use vstd::prelude::*;

verus! {

/// rand's standard generator, opaque to verification.
#[verifier::external_type_specification]
#[verifier::external_body]
pub struct ExStdRng(StdRng);

/// Relies on rand's `SeedableRng::seed_from_u64` to build a generator
/// from one word; nothing is assumed of the state it produces.
#[verifier::external_body]
pub(crate) fn rng_from_seed(seed: u64) -> StdRng {
    StdRng::seed_from_u64(seed)
}

/// Relies on rand's `Rng::next_u64` for one raw draw; nothing is
/// assumed of the value.
#[verifier::external_body]
pub(crate) fn rng_next(rng: &mut StdRng) -> u64 {
    rng.next_u64()
}

/// One draw reduced to a tick value in [-SCALE, SCALE): the fixed-point
/// rendering of sampling uniformly in [-1, 1).
pub fn next_symmetric(rng: &mut StdRng) -> (r: i64)
    ensures
        -(crate::fixed::SCALE as int) <= r < crate::fixed::SCALE as int,
{
    let u = rng_next(rng);
    (u % (2 * crate::fixed::SCALE as u64)) as i64 - crate::fixed::SCALE
}

/// One draw reduced to a tick value in [0, SCALE): sampling in [0, 1).
pub fn next_unit(rng: &mut StdRng) -> (r: i64)
    ensures
        0 <= r < crate::fixed::SCALE as int,
{
    let u = rng_next(rng);
    (u % (crate::fixed::SCALE as u64)) as i64
}

} // verus!
