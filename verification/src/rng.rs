//! Randomness for mine placement, behind a trusted wrapper.

use vstd::prelude::*;

verus! {

/// Relies on rand::random_range: a uniformly random value drawn from the
/// thread-local generator, lying in the given range; the range `0..n` must
/// be non-empty, as the call panics on an empty range.
#[verifier::external_body]
pub(crate) fn random_below(n: usize) -> (r: usize)
    requires
        n > 0,
    ensures
        r < n,
{
    rand::random_range(0..n)
}

} // verus!
