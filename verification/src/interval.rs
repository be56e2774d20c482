//! Ranges of scalar keys.

use vstd::prelude::*;
use crate::vec3::Scalar;

verus! {

/// `x` lies in the range `[min, max]`.
pub open spec fn in_range(x: int, min: int, max: int) -> bool {
    min <= x <= max
}

/// `x` brought into the range `[min, max]`: `min` if `x` lies below it, `max`
/// if `x` lies above it, else `x` itself.
pub open spec fn spec_clamp(x: int, min: int, max: int) -> int {
    if x < min {
        min
    } else if x > max {
        max
    } else {
        x
    }
}

/// `x` brought into the range `[min, max]`.
pub fn clamp(x: Scalar, min: Scalar, max: Scalar) -> (r: Scalar)
    ensures
        r == spec_clamp(x as int, min as int, max as int),
{
    if x < min {
        return min;
    }
    if x > max {
        return max;
    }
    x
}

/// Whether `t` lies in the range `[t_min, t_max]`.
pub fn within(t: Scalar, t_min: Scalar, t_max: Scalar) -> (inside: bool)
    ensures
        inside == in_range(t as int, t_min as int, t_max as int),
{
    !(t < t_min || t > t_max)
}

/// A clamped value lies in the range, whenever the range is not empty.
pub proof fn lemma_clamp_in_range(x: int, min: int, max: int)
    requires
        min <= max,
    ensures
        in_range(spec_clamp(x, min, max), min, max),
        in_range(x, min, max) ==> spec_clamp(x, min, max) == x,
{
}

} // verus!
