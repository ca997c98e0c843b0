//! Randomness for the wind rule.
//!
//! The generator is supplied by the caller (seedable, so a simulation can
//! be reproduced); the library only ever asks it for raw 64-bit outputs.

use vstd::prelude::*;
use rand::RngCore;

verus! {

use crate::num::UNIT_DENOM;

/// `rand::rngs::StdRng`, carried as an opaque value through the mesh API.
#[verifier::external_type_specification]
#[verifier::external_body]
pub struct ExStdRng(rand::rngs::StdRng);

/// Relies on rand's `RngCore::next_u64` for `StdRng`: advances the
/// generator and returns its next 64-bit output. Nothing is promised
/// about the value.
#[verifier::external_body]
pub(crate) fn rng_next(rng: &mut rand::rngs::StdRng) -> u64 {
    rng.next_u64()
}

/// One uniform sample in `[0, UNIT_DENOM)`.
pub(crate) fn draw_unit(rng: &mut rand::rngs::StdRng) -> (u: u64)
    ensures
        u < UNIT_DENOM,
{
    rng_next(rng) % UNIT_DENOM
}

} // verus!
