//! The only randomness the simulation needs: a coin flip and a bounded
//! uniform draw, both taken from the `rand` crate.

use rand::Rng;
use vstd::prelude::*;

verus! {

/// Relies on `rand::random::<bool>`: a coin flip. Nothing can be promised of
/// the outcome, so callers must state what holds either way.
#[verifier::external_body]
pub(crate) fn random_bool() -> bool {
    rand::random()
}

/// Relies on `rand::Rng::gen_range` on the inclusive range `0..=bound`
/// (through `rand::thread_rng`): it returns a uniform sample from that range,
/// so the result never exceeds `bound`. The range is never empty, so the call
/// cannot panic.
#[verifier::external_body]
pub(crate) fn random_at_most(bound: u64) -> (r: u64)
    ensures
        r <= bound,
{
    rand::thread_rng().gen_range(0..=bound)
}

} // verus!
