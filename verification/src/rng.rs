//! The one place the engine touches its source of randomness.

use vstd::prelude::*;

verus! {

/// Relies on rand's `RngExt::random_range` on the thread-local generator
/// `rand::rng()`: for the non-empty range `0..n` it returns a uniformly
/// sampled value of that range, so the result is below `n`. Nothing more is
/// assumed of the outcome.
#[verifier::external_body]
pub(crate) fn random_below(n: u32) -> (r: u32)
    requires
        n > 0,
    ensures
        r < n,
{
    rand::RngExt::random_range(&mut rand::rng(), 0..n)
}

} // verus!
