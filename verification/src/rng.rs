//! Trusted randomness source for the spawner: a single wrapper around the
//! thread-local generator. Nothing can be promised about which value comes
//! back beyond its range.

use vstd::prelude::*;

verus! {

/// Relies on rand::Rng::gen_range over `0..bound`: returns a uniformly drawn
/// value below `bound`; the call panics only on an empty range, which the
/// precondition excludes.
#[verifier::external_body]
pub(crate) fn random_below(bound: u32) -> (r: u32)
    requires
        bound > 0,
    ensures
        r < bound,
{
    rand::Rng::gen_range(&mut rand::thread_rng(), 0..bound)
}

} // verus!
