//! The boundary to the `rand` crate: the only source of randomness.
//!
//! Every random decision in the tracer draws through [`rand_below`], so a
//! caller that seeds its own `StdRng` controls the whole sample sequence.

use vstd::prelude::*;

verus! {

#[verifier::external_type_specification]
#[verifier::external_body]
pub struct ExStdRng(rand::rngs::StdRng);

/// Relies on rand's `Rng::gen_range` over `0..bound`: the result is drawn
/// from that half-open range.  `gen_range` panics on an empty range, so the
/// range is required to be non-empty.  Nothing is assumed about which value
/// comes back: callers must hold for every outcome below the bound.
#[verifier::external_body]
pub(crate) fn rand_below(rng: &mut rand::rngs::StdRng, bound: u64) -> (r: u64)
    requires
        bound >= 1,
    ensures
        r < bound,
{
    rand::Rng::gen_range(rng, 0..bound)
}

} // verus!
