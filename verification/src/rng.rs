//! The one source of randomness: rollouts and tie-breaking jitter draw
//! uniform numbers below a bound.
use vstd::prelude::*;

verus! {

/// Relies on rand's `random_range` over `0..n`: a sample from the thread-
/// local generator, uniform within the half-open range, which is nonempty
/// because `n` is positive.
#[verifier::external_body]
pub(crate) fn random_below(n: u64) -> (r: u64)
    requires
        n >= 1,
    ensures
        r < n,
{
    rand::random_range(0..n)
}

} // verus!
