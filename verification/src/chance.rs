//! Random numbers.
use vstd::prelude::*;

verus! {

/// Calls `rand::random_range` on `0..bound`: some number below `bound`. Nothing else is said of
/// the number, and two calls may give different ones.
#[verifier::external_body]
pub(crate) fn random_below(bound: usize) -> (n: usize)
    requires
        bound > 0,
    ensures
        n < bound,
{
    rand::random_range(0..bound)
}

} // verus!
