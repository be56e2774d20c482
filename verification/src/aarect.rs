//! Axis-aligned rectangles.

use vstd::prelude::*;
use crate::aabb::Aabb;
use crate::interval::{in_range, within};
use crate::vec3::{Scalar, Vec3};

verus! {

/// A rectangle in the plane `z = k`.
#[derive(Clone, Copy, Debug, PartialEq, Eq, Structural)]
pub struct XYRect {
    pub x0: Scalar,
    pub x1: Scalar,
    pub y0: Scalar,
    pub y1: Scalar,
    pub k: Scalar,
    pub material: usize,
}

/// A rectangle in the plane `y = k`.
#[derive(Clone, Copy, Debug, PartialEq, Eq, Structural)]
pub struct XZRect {
    pub x0: Scalar,
    pub x1: Scalar,
    pub z0: Scalar,
    pub z1: Scalar,
    pub k: Scalar,
    pub material: usize,
}

/// A rectangle in the plane `x = k`.
#[derive(Clone, Copy, Debug, PartialEq, Eq, Structural)]
pub struct YZRect {
    pub y0: Scalar,
    pub y1: Scalar,
    pub z0: Scalar,
    pub z1: Scalar,
    pub k: Scalar,
    pub material: usize,
}

/// Whether a ray hits a rectangle with the sides `[a0, a1]` and `[b0, b1]`:
/// it meets the plane of the rectangle at the parameter `t`, at the point
/// `(a, b)` of the plane. It hits if `t` lies in `[t_min, t_max]` and the
/// point lies within both sides.
pub open spec fn rect_is_hit(
    a0: Scalar,
    a1: Scalar,
    b0: Scalar,
    b1: Scalar,
    t: Scalar,
    a: Scalar,
    b: Scalar,
    t_min: Scalar,
    t_max: Scalar,
) -> bool {
    &&& in_range(t as int, t_min as int, t_max as int)
    &&& in_range(a as int, a0 as int, a1 as int)
    &&& in_range(b as int, b0 as int, b1 as int)
}

/// Whether a ray hits a rectangle with the sides `[a0, a1]` and `[b0, b1]`.
fn rect_hit(
    a0: Scalar,
    a1: Scalar,
    b0: Scalar,
    b1: Scalar,
    t: Scalar,
    a: Scalar,
    b: Scalar,
    t_min: Scalar,
    t_max: Scalar,
) -> (hit: bool)
    ensures
        hit == rect_is_hit(a0, a1, b0, b1, t, a, b, t_min, t_max),
{
    if !within(t, t_min, t_max) {
        return false;
    }
    if a < a0 || a > a1 || b < b0 || b > b1 {
        return false;
    }
    true
}

impl XYRect {
    /// The rectangle from `(x0, y0)` to `(x1, y1)` in the plane `z = k`.
    pub fn new(x0: Scalar, x1: Scalar, y0: Scalar, y1: Scalar, k: Scalar, material: usize) -> (r:
        XYRect)
        ensures
            r == (XYRect { x0, x1, y0, y1, k, material }),
    {
        XYRect { x0, x1, y0, y1, k, material }
    }

    /// Whether a ray that meets the plane at the parameter `t`, at the point
    /// `(x, y)`, hits the rectangle within `[t_min, t_max]`.
    pub fn is_hit(&self, t: Scalar, x: Scalar, y: Scalar, t_min: Scalar, t_max: Scalar) -> (hit:
        bool)
        ensures
            hit == rect_is_hit(self.x0, self.x1, self.y0, self.y1, t, x, y, t_min, t_max),
    {
        rect_hit(self.x0, self.x1, self.y0, self.y1, t, x, y, t_min, t_max)
    }

    /// The box of the rectangle, which reaches from `below` to `above` across
    /// its plane.
    pub fn bounding_box(&self, below: Scalar, above: Scalar) -> (b: Aabb)
        ensures
            b.minimum == (Vec3 { x: self.x0, y: self.y0, z: below }),
            b.maximum == (Vec3 { x: self.x1, y: self.y1, z: above }),
    {
        Aabb::new(Vec3::new(self.x0, self.y0, below), Vec3::new(self.x1, self.y1, above))
    }
}

impl XZRect {
    /// The rectangle from `(x0, z0)` to `(x1, z1)` in the plane `y = k`.
    pub fn new(x0: Scalar, x1: Scalar, z0: Scalar, z1: Scalar, k: Scalar, material: usize) -> (r:
        XZRect)
        ensures
            r == (XZRect { x0, x1, z0, z1, k, material }),
    {
        XZRect { x0, x1, z0, z1, k, material }
    }

    /// Whether a ray that meets the plane at the parameter `t`, at the point
    /// `(x, z)`, hits the rectangle within `[t_min, t_max]`.
    pub fn is_hit(&self, t: Scalar, x: Scalar, z: Scalar, t_min: Scalar, t_max: Scalar) -> (hit:
        bool)
        ensures
            hit == rect_is_hit(self.x0, self.x1, self.z0, self.z1, t, x, z, t_min, t_max),
    {
        rect_hit(self.x0, self.x1, self.z0, self.z1, t, x, z, t_min, t_max)
    }

    /// The box of the rectangle, which reaches from `below` to `above` across
    /// its plane.
    pub fn bounding_box(&self, below: Scalar, above: Scalar) -> (b: Aabb)
        ensures
            b.minimum == (Vec3 { x: self.x0, y: below, z: self.z0 }),
            b.maximum == (Vec3 { x: self.x1, y: above, z: self.z1 }),
    {
        Aabb::new(Vec3::new(self.x0, below, self.z0), Vec3::new(self.x1, above, self.z1))
    }
}

impl YZRect {
    /// The rectangle from `(y0, z0)` to `(y1, z1)` in the plane `x = k`.
    pub fn new(y0: Scalar, y1: Scalar, z0: Scalar, z1: Scalar, k: Scalar, material: usize) -> (r:
        YZRect)
        ensures
            r == (YZRect { y0, y1, z0, z1, k, material }),
    {
        YZRect { y0, y1, z0, z1, k, material }
    }

    /// Whether a ray that meets the plane at the parameter `t`, at the point
    /// `(y, z)`, hits the rectangle within `[t_min, t_max]`.
    pub fn is_hit(&self, t: Scalar, y: Scalar, z: Scalar, t_min: Scalar, t_max: Scalar) -> (hit:
        bool)
        ensures
            hit == rect_is_hit(self.y0, self.y1, self.z0, self.z1, t, y, z, t_min, t_max),
    {
        rect_hit(self.y0, self.y1, self.z0, self.z1, t, y, z, t_min, t_max)
    }

    /// The box of the rectangle, which reaches from `below` to `above` across
    /// its plane.
    pub fn bounding_box(&self, below: Scalar, above: Scalar) -> (b: Aabb)
        ensures
            b.minimum == (Vec3 { x: below, y: self.y0, z: self.z0 }),
            b.maximum == (Vec3 { x: above, y: self.y1, z: self.z1 }),
    {
        Aabb::new(Vec3::new(below, self.y0, self.z0), Vec3::new(above, self.y1, self.z1))
    }
}

} // verus!
