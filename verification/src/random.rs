//! The library's sources of chance.

use vstd::prelude::*;

verus! {

/// A whole number drawn uniformly from `min..=max`.
///
/// Trusted: the body calls `rand::random_range` with the inclusive range
/// `min..=max`, which draws from the thread's generator. The contract claims
/// only that the number lies in the range, whatever was drawn. The range must
/// hold a number, as `random_range` panics on an empty one.
#[verifier::external_body]
pub fn random_int(min: i32, max: i32) -> (r: i32)
    requires
        min <= max,
    ensures
        min <= r <= max,
{
    rand::random_range(min..=max)
}

/// A fair coin.
///
/// Trusted: the body calls `rand::random` for a `bool`, which draws from the
/// thread's generator. Nothing is claimed of the outcome.
#[verifier::external_body]
pub(crate) fn random_side() -> (heads: bool)
{
    rand::random::<bool>()
}

} // verus!
