//! The one source of chance in the game.

use vstd::prelude::*;

verus! {

/// Draws an index below `bound`.
///
/// Trusted, not proved: the body asks `rand::thread_rng()` for a value of the
/// range `0..bound` through `rand::Rng::gen_range`, which samples the range
/// uniformly. The contract keeps only what holds of every draw, that the
/// index lies in the range; two calls may differ. `gen_range` panics on an
/// empty range, so `bound` must be positive. The generator of a thread
/// panics if the operating system cannot seed it, when it is first used or
/// when it seeds itself anew later on, which no argument can rule out.
#[verifier::external_body]
pub(crate) fn random_index(bound: usize) -> (index: usize)
    requires
        bound > 0,
    ensures
        index < bound,
{
    rand::Rng::gen_range(&mut rand::thread_rng(), 0..bound)
}

} // verus!
