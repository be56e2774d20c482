//! The choice between the two points at which a ray meets a sphere.

use vstd::prelude::*;
use crate::interval::{in_range, within};
use crate::vec3::Scalar;

verus! {

/// The root that counts as the hit, of the two roots `near <= far` of the
/// ray's equation: the nearer one if it lies in `[t_min, t_max]`, else the
/// farther one if that lies in the range, else none.
pub open spec fn chosen_root(near: int, far: int, t_min: int, t_max: int) -> Option<int> {
    if in_range(near, t_min, t_max) {
        Some(near)
    } else if in_range(far, t_min, t_max) {
        Some(far)
    } else {
        None
    }
}

/// The root that counts as the hit of a ray with a sphere.
pub fn nearest_root(near: Scalar, far: Scalar, t_min: Scalar, t_max: Scalar) -> (root: Option<
    Scalar,
>)
    ensures
        match root {
            Some(t) => chosen_root(near as int, far as int, t_min as int, t_max as int) == Some(
                t as int,
            ),
            None => chosen_root(near as int, far as int, t_min as int, t_max as int).is_none(),
        },
{
    let mut root = near;
    if !within(root, t_min, t_max) {
        root = far;
        if !within(root, t_min, t_max) {
            return None;
        }
    }
    Some(root)
}

/// The chosen root lies in the range, and no root in the range is nearer.
pub proof fn lemma_chosen_root_is_nearest(near: int, far: int, t_min: int, t_max: int)
    requires
        near <= far,
    ensures
        match chosen_root(near, far, t_min, t_max) {
            Some(t) => {
                &&& in_range(t, t_min, t_max)
                &&& (t == near || t == far)
                &&& in_range(near, t_min, t_max) ==> t == near
            },
            None => !in_range(near, t_min, t_max) && !in_range(far, t_min, t_max),
        },
{
}

/// A shorter range keeps the chosen root or loses it: over `[t_min, bound]`
/// with `bound <= t_max` the choice is the one over `[t_min, t_max]` if that
/// is no farther than `bound`, else none.
pub proof fn lemma_chosen_root_is_steady(near: int, far: int, t_min: int, t_max: int, bound: int)
    requires
        near <= far,
        bound <= t_max,
    ensures
        chosen_root(near, far, t_min, bound) == match chosen_root(near, far, t_min, t_max) {
            Some(t) => if t <= bound {
                Some(t)
            } else {
                None
            },
            None => None,
        },
{
}

} // verus!
