//! The order of boxes along an axis.

use std::cmp::Ordering;
use vstd::prelude::*;
use crate::aabb::Aabb;

verus! {

/// The order of two keys.
pub open spec fn three_way(a: int, b: int) -> Ordering {
    if a < b {
        Ordering::Less
    } else if a > b {
        Ordering::Greater
    } else {
        Ordering::Equal
    }
}

/// The order of two boxes along `axis`, which is 0, 1 or 2: that of their
/// minimums there.
pub fn box_compare(a: &Aabb, b: &Aabb, axis: usize) -> (o: Ordering)
    requires
        axis < 3,
    ensures
        o == three_way(a.min_key(axis), b.min_key(axis)),
{
    let ka = a.minimum.index(axis);
    let kb = b.minimum.index(axis);
    if ka < kb {
        Ordering::Less
    } else if ka > kb {
        Ordering::Greater
    } else {
        Ordering::Equal
    }
}

/// The order of two boxes along the x axis.
pub fn box_compare_x(a: &Aabb, b: &Aabb) -> (o: Ordering)
    ensures
        o == three_way(a.min_key(0), b.min_key(0)),
{
    box_compare(a, b, 0)
}

/// The order of two boxes along the y axis.
pub fn box_compare_y(a: &Aabb, b: &Aabb) -> (o: Ordering)
    ensures
        o == three_way(a.min_key(1), b.min_key(1)),
{
    box_compare(a, b, 1)
}

/// The order of two boxes along the z axis.
pub fn box_compare_z(a: &Aabb, b: &Aabb) -> (o: Ordering)
    ensures
        o == three_way(a.min_key(2), b.min_key(2)),
{
    box_compare(a, b, 2)
}

} // verus!
