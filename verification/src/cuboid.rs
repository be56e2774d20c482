//! A box made of its six sides.

use vstd::prelude::*;
use crate::aabb::Aabb;
use crate::aarect::{XYRect, XZRect, YZRect};
use crate::hittable::{narrowed, steady, HitRecord, Hittable};
use crate::hittable_list::HittableList;
use crate::ray::Ray;
use crate::vec3::{Point3, Scalar};

verus! {

/// A box with the corners `box_min` and `box_max`, hit by way of its sides.
pub struct Cuboid<H: Hittable> {
    pub box_min: Point3,
    pub box_max: Point3,
    pub sides: HittableList<H>,
}

impl<H: Hittable> Cuboid<H> {
    /// The box from `box_min` to `box_max` with the sides `sides`.
    pub fn new(box_min: Point3, box_max: Point3, sides: HittableList<H>) -> (c: Cuboid<H>)
        ensures
            c.box_min == box_min,
            c.box_max == box_max,
            c.sides == sides,
    {
        Cuboid { box_min, box_max, sides }
    }
}

impl<H: Hittable> Hittable for Cuboid<H> {
    /// What the list of the sides may answer.
    open spec fn hit_outcome(
        &self,
        r: Ray,
        t_min: Scalar,
        t_max: Scalar,
        rec: Option<HitRecord>,
    ) -> bool {
        self.sides.hit_outcome(r, t_min, t_max, rec)
    }

    /// The box from corner to corner.
    open spec fn bounds(&self, time0: Scalar, time1: Scalar) -> Option<Aabb> {
        Some(Aabb { minimum: self.box_min, maximum: self.box_max })
    }

    fn hit(&self, r: &Ray, t_min: Scalar, t_max: Scalar) -> (rec: Option<HitRecord>) {
        self.sides.hit(r, t_min, t_max)
    }

    fn bounding_box(&self, time0: Scalar, time1: Scalar) -> (b: Option<Aabb>) {
        Some(Aabb::new(self.box_min, self.box_max))
    }
}

/// A box answers steadily if the list of its sides does, with the same hit.
pub proof fn lemma_cuboid_is_steady<H: Hittable>(
    c: Cuboid<H>,
    r: Ray,
    t_min: Scalar,
    t_max: Scalar,
    full: Option<HitRecord>,
)
    requires
        steady(seq![c.sides], r, t_min, t_max, seq![full]),
    ensures
        steady(seq![c], r, t_min, t_max, seq![full]),
{
    let inner = seq![c.sides];
    let outer = seq![c];
    assert forall|i: int, bound: Scalar, rec: Option<HitRecord>|
        0 <= i < outer.len() && bound <= t_max && #[trigger] outer[i].hit_outcome(
            r,
            t_min,
            bound,
            rec,
        ) implies rec == narrowed(seq![full][i], bound) by {
        assert(inner[0].hit_outcome(r, t_min, bound, rec));
    }
}

/// The six sides of the box from `box_min` to `box_max`, all of the material
/// `material`: for each pair of axes the side at the far end of the third
/// axis, then the side at its near end.
pub fn cuboid_sides(box_min: Point3, box_max: Point3, material: usize) -> (s: (
    Vec<XYRect>,
    Vec<XZRect>,
    Vec<YZRect>,
))
    ensures
        s.0@ == seq![
            (XYRect {
                x0: box_min.x,
                x1: box_max.x,
                y0: box_min.y,
                y1: box_max.y,
                k: box_max.z,
                material,
            }),
            (XYRect {
                x0: box_min.x,
                x1: box_max.x,
                y0: box_min.y,
                y1: box_max.y,
                k: box_min.z,
                material,
            }),
        ],
        s.1@ == seq![
            (XZRect {
                x0: box_min.x,
                x1: box_max.x,
                z0: box_min.z,
                z1: box_max.z,
                k: box_max.y,
                material,
            }),
            (XZRect {
                x0: box_min.x,
                x1: box_max.x,
                z0: box_min.z,
                z1: box_max.z,
                k: box_min.y,
                material,
            }),
        ],
        s.2@ == seq![
            (YZRect {
                y0: box_min.y,
                y1: box_max.y,
                z0: box_min.z,
                z1: box_max.z,
                k: box_max.x,
                material,
            }),
            (YZRect {
                y0: box_min.y,
                y1: box_max.y,
                z0: box_min.z,
                z1: box_max.z,
                k: box_min.x,
                material,
            }),
        ],
{
    let (lo, hi) = (box_min, box_max);
    let mut xy: Vec<XYRect> = Vec::new();
    xy.push(XYRect::new(lo.x, hi.x, lo.y, hi.y, hi.z, material));
    xy.push(XYRect::new(lo.x, hi.x, lo.y, hi.y, lo.z, material));
    let mut xz: Vec<XZRect> = Vec::new();
    xz.push(XZRect::new(lo.x, hi.x, lo.z, hi.z, hi.y, material));
    xz.push(XZRect::new(lo.x, hi.x, lo.z, hi.z, lo.y, material));
    let mut yz: Vec<YZRect> = Vec::new();
    yz.push(YZRect::new(lo.y, hi.y, lo.z, hi.z, hi.x, material));
    yz.push(YZRect::new(lo.y, hi.y, lo.z, hi.z, lo.x, material));
    proof {
        assert(xy@ =~= seq![xy@[0], xy@[1]]);
        assert(xz@ =~= seq![xz@[0], xz@[1]]);
        assert(yz@ =~= seq![yz@[0], yz@[1]]);
    }
    (xy, xz, yz)
}

} // verus!
