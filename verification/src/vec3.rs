//! Scalar keys and triples of them.

use vstd::prelude::*;

verus! {

/// An ordered scalar key.
///
/// A key stands for one number of the renderer (a coordinate, a ray parameter,
/// a time). Two things are assumed of keys: two keys compare as the numbers
/// they stand for do, and the key 0 stands for the number zero. So a key
/// below 0 stands for a number below zero, the time 0 is time zero, and the
/// colour of three keys 0 is black.
pub type Scalar = i64;

/// A triple of scalar keys: a position or a direction, component by component.
#[derive(Clone, Copy, Debug, PartialEq, Eq, Structural)]
pub struct Vec3 {
    pub x: Scalar,
    pub y: Scalar,
    pub z: Scalar,
}

/// A position.
pub type Point3 = Vec3;

/// The smaller of two keys.
pub open spec fn spec_min(a: int, b: int) -> int {
    if a <= b { a } else { b }
}

/// The larger of two keys.
pub open spec fn spec_max(a: int, b: int) -> int {
    if a >= b { a } else { b }
}

/// The smaller of two keys.
pub fn min_scalar(a: Scalar, b: Scalar) -> (r: Scalar)
    ensures
        r == spec_min(a as int, b as int),
{
    if a <= b { a } else { b }
}

/// The larger of two keys.
pub fn max_scalar(a: Scalar, b: Scalar) -> (r: Scalar)
    ensures
        r == spec_max(a as int, b as int),
{
    if a >= b { a } else { b }
}

impl Vec3 {
    /// The component of `self` on `axis`: 0 for x, 1 for y, anything else for z.
    pub open spec fn component(self, axis: int) -> int {
        if axis == 0 {
            self.x as int
        } else if axis == 1 {
            self.y as int
        } else {
            self.z as int
        }
    }

    /// The component of `self` on `axis`, as a key.
    pub open spec fn index_spec(self, axis: int) -> Scalar {
        if axis == 0 {
            self.x
        } else if axis == 1 {
            self.y
        } else {
            self.z
        }
    }

    /// The triple `(x, y, z)`.
    pub fn new(x: Scalar, y: Scalar, z: Scalar) -> (v: Vec3)
        ensures
            v.x == x,
            v.y == y,
            v.z == z,
    {
        Vec3 { x, y, z }
    }

    /// The component on axis `i`, which is 0, 1 or 2.
    pub fn index(&self, i: usize) -> (c: Scalar)
        requires
            i < 3,
        ensures
            c == self.component(i as int),
            c == self.index_spec(i as int),
    {
        if i == 0 {
            self.x
        } else if i == 1 {
            self.y
        } else {
            self.z
        }
    }
}

} // verus!
