//! Axis-aligned bounding boxes and the interval test of their slabs.

use vstd::prelude::*;
use crate::ray::Ray;
use crate::vec3::{max_scalar, min_scalar, spec_max, spec_min, Point3, Scalar, Vec3};

verus! {

/// An axis-aligned box, given by its two extreme corners.
#[derive(Clone, Copy, Debug, PartialEq, Eq, Structural)]
pub struct Aabb {
    pub minimum: Point3,
    pub maximum: Point3,
}

/// The stretch of a ray that lies between the two planes of a box on one axis:
/// the ray parameter at which it enters and the one at which it leaves.
#[derive(Clone, Copy, Debug, PartialEq, Eq, Structural)]
pub struct Slab {
    pub enter: Scalar,
    pub exit: Scalar,
}

/// The slabs of one box on the three axes.
#[derive(Clone, Copy, Debug, PartialEq, Eq, Structural)]
pub struct Slabs {
    pub x: Slab,
    pub y: Slab,
    pub z: Slab,
}

impl Slabs {
    /// The slab on `axis`: 0 for x, 1 for y, anything else for z.
    pub open spec fn on(self, axis: int) -> Slab {
        if axis == 0 {
            self.x
        } else if axis == 1 {
            self.y
        } else {
            self.z
        }
    }

    /// The slab on axis `i`, which is 0, 1 or 2.
    pub fn index(&self, i: usize) -> (s: Slab)
        requires
            i < 3,
        ensures
            s == self.on(i as int),
    {
        if i == 0 {
            self.x
        } else if i == 1 {
            self.y
        } else {
            self.z
        }
    }
}

impl Aabb {
    /// The smallest box that holds both `a` and `b`: on every axis the smaller
    /// of the minimums and the larger of the maximums.
    pub open spec fn union(a: Aabb, b: Aabb) -> Aabb {
        Aabb {
            minimum: Vec3 {
                x: spec_min(a.minimum.x as int, b.minimum.x as int) as i64,
                y: spec_min(a.minimum.y as int, b.minimum.y as int) as i64,
                z: spec_min(a.minimum.z as int, b.minimum.z as int) as i64,
            },
            maximum: Vec3 {
                x: spec_max(a.maximum.x as int, b.maximum.x as int) as i64,
                y: spec_max(a.maximum.y as int, b.maximum.y as int) as i64,
                z: spec_max(a.maximum.z as int, b.maximum.z as int) as i64,
            },
        }
    }

    /// `self` reaches at least as far as `inner` in both directions of every axis.
    pub open spec fn encloses(self, inner: Aabb) -> bool {
        &&& self.minimum.x <= inner.minimum.x
        &&& self.minimum.y <= inner.minimum.y
        &&& self.minimum.z <= inner.minimum.z
        &&& inner.maximum.x <= self.maximum.x
        &&& inner.maximum.y <= self.maximum.y
        &&& inner.maximum.z <= self.maximum.z
    }

    /// The smallest coordinate of the box on the axis `axis`.
    pub open spec fn min_key(self, axis: usize) -> int {
        self.minimum.component(axis as int)
    }

    /// The box with corners `a` and `b`.
    pub fn new(a: Point3, b: Point3) -> (r: Aabb)
        ensures
            r.minimum == a,
            r.maximum == b,
    {
        Aabb { minimum: a, maximum: b }
    }

    /// The corner with the smallest coordinates.
    pub fn min(&self) -> (p: Point3)
        ensures
            p == self.minimum,
    {
        self.minimum
    }

    /// The corner with the largest coordinates.
    pub fn max(&self) -> (p: Point3)
        ensures
            p == self.maximum,
    {
        self.maximum
    }

    /// The smallest box that holds both `box0` and `box1`.
    pub fn surrounding_box(box0: &Aabb, box1: &Aabb) -> (r: Aabb)
        ensures
            r == Aabb::union(*box0, *box1),
    {
        let small = Vec3::new(
            min_scalar(box0.minimum.x, box1.minimum.x),
            min_scalar(box0.minimum.y, box1.minimum.y),
            min_scalar(box0.minimum.z, box1.minimum.z),
        );
        let big = Vec3::new(
            max_scalar(box0.maximum.x, box1.maximum.x),
            max_scalar(box0.maximum.y, box1.maximum.y),
            max_scalar(box0.maximum.z, box1.maximum.z),
        );
        Aabb::new(small, big)
    }

    /// The union of two boxes does not depend on their order.
    pub proof fn lemma_union_commutative(a: Aabb, b: Aabb)
        ensures
            Aabb::union(a, b) == Aabb::union(b, a),
    {
    }

    /// A union of three boxes does not depend on how they are grouped.
    pub proof fn lemma_union_associative(a: Aabb, b: Aabb, c: Aabb)
        ensures
            Aabb::union(Aabb::union(a, b), c) == Aabb::union(a, Aabb::union(b, c)),
    {
    }

    /// The union of two boxes encloses each of them.
    pub proof fn lemma_union_encloses(a: Aabb, b: Aabb)
        ensures
            Aabb::union(a, b).encloses(a),
            Aabb::union(a, b).encloses(b),
    {
    }

    /// The union of two boxes is the least box that encloses both.
    pub proof fn lemma_union_least(a: Aabb, b: Aabb, outer: Aabb)
        requires
            outer.encloses(a),
            outer.encloses(b),
        ensures
            outer.encloses(Aabb::union(a, b)),
    {
    }

    /// Enclosure is transitive.
    pub proof fn lemma_encloses_transitive(a: Aabb, b: Aabb, c: Aabb)
        requires
            a.encloses(b),
            b.encloses(c),
        ensures
            a.encloses(c),
    {
    }
}

/// The first ray parameter of the part of `[t_min, t_max]` that lies inside
/// all three slabs: the largest of `t_min` and the three entries.
pub open spec fn narrowed_min(slabs: Slabs, t_min: int) -> int {
    spec_max(
        spec_max(spec_max(t_min, slabs.x.enter as int), slabs.y.enter as int),
        slabs.z.enter as int,
    )
}

/// The last ray parameter of the part of `[t_min, t_max]` that lies inside all
/// three slabs: the smallest of `t_max` and the three exits.
pub open spec fn narrowed_max(slabs: Slabs, t_max: int) -> int {
    spec_min(
        spec_min(spec_min(t_max, slabs.x.exit as int), slabs.y.exit as int),
        slabs.z.exit as int,
    )
}

/// Whether a ray passes through a box within `[t_min, t_max]`, given the slab
/// of the box on each axis.
///
/// The interval is narrowed axis by axis and the test stops at the first axis
/// that leaves nothing of it. The answer is `true` exactly when the interval
/// narrowed by all three slabs still has a positive length.
pub fn slabs_overlap(slabs: &Slabs, t_min: Scalar, t_max: Scalar) -> (hit: bool)
    ensures
        hit == (narrowed_min(*slabs, t_min as int) < narrowed_max(*slabs, t_max as int)),
{
    let mut lo: Scalar = t_min;
    let mut hi: Scalar = t_max;
    let mut a: usize = 0;
    while a < 3
        invariant
            a <= 3,
            lo as int == if a == 0 {
                t_min as int
            } else if a == 1 {
                spec_max(t_min as int, slabs.x.enter as int)
            } else if a == 2 {
                spec_max(spec_max(t_min as int, slabs.x.enter as int), slabs.y.enter as int)
            } else {
                narrowed_min(*slabs, t_min as int)
            },
            hi as int == if a == 0 {
                t_max as int
            } else if a == 1 {
                spec_min(t_max as int, slabs.x.exit as int)
            } else if a == 2 {
                spec_min(spec_min(t_max as int, slabs.x.exit as int), slabs.y.exit as int)
            } else {
                narrowed_max(*slabs, t_max as int)
            },
            lo < hi || a == 0,
        decreases 3 - a,
    {
        let slab = slabs.index(a);
        lo = max_scalar(lo, slab.enter);
        hi = min_scalar(hi, slab.exit);
        if hi <= lo {
            return false;
        }
        a += 1;
    }
    true
}

/// A box that lies wholly behind the start of the interval on some axis is
/// never passed through.
pub proof fn lemma_slab_behind_misses(slabs: Slabs, t_min: int, t_max: int, axis: int)
    requires
        0 <= axis < 3,
        slabs.on(axis).exit <= t_min,
    ensures
        !(narrowed_min(slabs, t_min) < narrowed_max(slabs, t_max)),
{
}

/// The smallest coordinate on `axis` among the first `upto` of `points`, of
/// which there is at least one.
pub open spec fn least_upto(points: Seq<Vec3>, axis: int, upto: int) -> int
    decreases upto,
{
    if upto <= 1 {
        points[0].component(axis)
    } else {
        spec_min(least_upto(points, axis, upto - 1), points[upto - 1].component(axis))
    }
}

/// The largest coordinate on `axis` among the first `upto` of `points`, of
/// which there is at least one.
pub open spec fn greatest_upto(points: Seq<Vec3>, axis: int, upto: int) -> int
    decreases upto,
{
    if upto <= 1 {
        points[0].component(axis)
    } else {
        spec_max(greatest_upto(points, axis, upto - 1), points[upto - 1].component(axis))
    }
}

/// The box `b` is the envelope of the first `upto` of `points`: on every axis
/// it reaches from the smallest of their coordinates to the largest.
pub open spec fn is_envelope(b: Aabb, points: Seq<Vec3>, upto: int) -> bool {
    &&& b.minimum.x == least_upto(points, 0, upto)
    &&& b.minimum.y == least_upto(points, 1, upto)
    &&& b.minimum.z == least_upto(points, 2, upto)
    &&& b.maximum.x == greatest_upto(points, 0, upto)
    &&& b.maximum.y == greatest_upto(points, 1, upto)
    &&& b.maximum.z == greatest_upto(points, 2, upto)
}

/// The point `p` lies in the box `b`.
pub open spec fn holds_point(b: Aabb, p: Vec3) -> bool {
    &&& b.minimum.x <= p.x <= b.maximum.x
    &&& b.minimum.y <= p.y <= b.maximum.y
    &&& b.minimum.z <= p.z <= b.maximum.z
}

impl Aabb {
    /// The eight corners of the box, counted through the axes: the first four
    /// have the smallest x and the last four the largest; of each four the
    /// first two have the smallest y; of each two the first has the smallest
    /// z.
    pub fn corners(&self) -> (c: Vec<Vec3>)
        ensures
            c@ == seq![
                (Vec3 { x: self.minimum.x, y: self.minimum.y, z: self.minimum.z }),
                (Vec3 { x: self.minimum.x, y: self.minimum.y, z: self.maximum.z }),
                (Vec3 { x: self.minimum.x, y: self.maximum.y, z: self.minimum.z }),
                (Vec3 { x: self.minimum.x, y: self.maximum.y, z: self.maximum.z }),
                (Vec3 { x: self.maximum.x, y: self.minimum.y, z: self.minimum.z }),
                (Vec3 { x: self.maximum.x, y: self.minimum.y, z: self.maximum.z }),
                (Vec3 { x: self.maximum.x, y: self.maximum.y, z: self.minimum.z }),
                (Vec3 { x: self.maximum.x, y: self.maximum.y, z: self.maximum.z }),
            ],
    {
        let lo = self.minimum;
        let hi = self.maximum;
        let mut c: Vec<Vec3> = Vec::new();
        c.push(Vec3::new(lo.x, lo.y, lo.z));
        c.push(Vec3::new(lo.x, lo.y, hi.z));
        c.push(Vec3::new(lo.x, hi.y, lo.z));
        c.push(Vec3::new(lo.x, hi.y, hi.z));
        c.push(Vec3::new(hi.x, lo.y, lo.z));
        c.push(Vec3::new(hi.x, lo.y, hi.z));
        c.push(Vec3::new(hi.x, hi.y, lo.z));
        c.push(Vec3::new(hi.x, hi.y, hi.z));
        proof {
            assert(c@ =~= seq![
                (Vec3 { x: self.minimum.x, y: self.minimum.y, z: self.minimum.z }),
                (Vec3 { x: self.minimum.x, y: self.minimum.y, z: self.maximum.z }),
                (Vec3 { x: self.minimum.x, y: self.maximum.y, z: self.minimum.z }),
                (Vec3 { x: self.minimum.x, y: self.maximum.y, z: self.maximum.z }),
                (Vec3 { x: self.maximum.x, y: self.minimum.y, z: self.minimum.z }),
                (Vec3 { x: self.maximum.x, y: self.minimum.y, z: self.maximum.z }),
                (Vec3 { x: self.maximum.x, y: self.maximum.y, z: self.minimum.z }),
                (Vec3 { x: self.maximum.x, y: self.maximum.y, z: self.maximum.z }),
            ]);
        }
        c
    }

    /// The envelope of `points`: the smallest box that holds them all; none
    /// if there is no point.
    pub fn envelope(points: &Vec<Vec3>) -> (b: Option<Aabb>)
        ensures
            b.is_none() <==> points@.len() == 0,
            b.is_some() ==> is_envelope(b.unwrap(), points@, points@.len() as int),
    {
        let n = points.len();
        if n == 0 {
            return None;
        }
        let first = points[0];
        let mut min = first;
        let mut max = first;
        let mut i: usize = 1;
        while i < n
            invariant
                1 <= i <= n,
                n == points@.len(),
                is_envelope(Aabb { minimum: min, maximum: max }, points@, i as int),
            decreases n - i,
        {
            let p = points[i];
            min = Vec3::new(min_scalar(min.x, p.x), min_scalar(min.y, p.y), min_scalar(min.z, p.z));
            max = Vec3::new(max_scalar(max.x, p.x), max_scalar(max.y, p.y), max_scalar(max.z, p.z));
            i += 1;
        }
        Some(Aabb::new(min, max))
    }

    /// The envelope of points holds each of them.
    pub proof fn lemma_envelope_holds_points(b: Aabb, points: Seq<Vec3>, upto: int)
        requires
            1 <= upto <= points.len(),
            is_envelope(b, points, upto),
        ensures
            forall|i: int| 0 <= i < upto ==> holds_point(b, #[trigger] points[i]),
    {
        Self::lemma_extremes_bound_points(points, 0, upto);
        Self::lemma_extremes_bound_points(points, 1, upto);
        Self::lemma_extremes_bound_points(points, 2, upto);
    }

    /// On every axis each point lies between the extremes of the points.
    pub proof fn lemma_extremes_bound_points(points: Seq<Vec3>, axis: int, upto: int)
        requires
            1 <= upto <= points.len(),
        ensures
            forall|i: int|
                0 <= i < upto ==> least_upto(points, axis, upto) <= (#[trigger] points[i]).component(
                    axis,
                ) <= greatest_upto(points, axis, upto),
        decreases upto,
    {
        if upto > 1 {
            Self::lemma_extremes_bound_points(points, axis, upto - 1);
        }
    }
}

/// Whether `pass` is what the box test answers for the box `b` and the ray
/// `r` over `[t_min, t_max]`, where `slab_of` gives the slab of a box for a
/// ray on one axis and gave those of `s`.
///
/// The test goes axis by axis: it asks for the slab of the axis, narrows the
/// range to it, and stops with a miss at the first axis that leaves nothing
/// of the range; the slabs of the axes after it are not asked for. If all
/// three axes leave a stretch of positive length, the ray passes.
pub open spec fn box_test<F: Fn(Aabb, Ray, usize) -> Slab>(
    slab_of: F,
    b: Aabb,
    r: Ray,
    t_min: Scalar,
    t_max: Scalar,
    s: Slabs,
    pass: bool,
) -> bool {
    let lo1 = spec_max(t_min as int, s.x.enter as int);
    let hi1 = spec_min(t_max as int, s.x.exit as int);
    let lo2 = spec_max(lo1, s.y.enter as int);
    let hi2 = spec_min(hi1, s.y.exit as int);
    &&& slab_of.ensures((b, r, 0usize), s.x)
    &&& if hi1 <= lo1 {
        !pass
    } else {
        &&& slab_of.ensures((b, r, 1usize), s.y)
        &&& if hi2 <= lo2 {
            !pass
        } else {
            &&& slab_of.ensures((b, r, 2usize), s.z)
            &&& pass == (narrowed_min(s, t_min as int) < narrowed_max(s, t_max as int))
        }
    }
}

/// On `axis` the ray `r` starts outside the box `b` and points away from it:
/// it starts beyond the box and goes on, or before the box and goes back.
pub open spec fn points_away(b: Aabb, r: Ray, axis: int) -> bool {
    ||| r.origin.component(axis) > b.maximum.component(axis) && r.direction.component(axis) > 0
    ||| r.origin.component(axis) < b.minimum.component(axis) && r.direction.component(axis) < 0
}

/// The slabs that `slab_of` gives keep to the signs: on an axis on which a
/// ray starts outside a box and points away from it, the ray has left the
/// slab at zero, where it starts.
pub open spec fn slabs_keep_signs<F: Fn(Aabb, Ray, usize) -> Slab>(slab_of: F) -> bool {
    forall|b: Aabb, r: Ray, a: usize, s: Slab|
        a < 3 && #[trigger] slab_of.ensures((b, r, a), s) && points_away(b, r, a as int)
            ==> s.exit <= 0
}

impl Aabb {
    /// Whether the ray `r` passes through the box within `[t_min, t_max]`,
    /// where `slab_of` gives the slab of a box for a ray on one axis.
    ///
    /// The range is narrowed axis by axis to the slab of each, and the test
    /// ends with a miss at the first axis that leaves nothing of it.
    pub fn hit<F: Fn(Aabb, Ray, usize) -> Slab>(
        &self,
        slab_of: &F,
        r: &Ray,
        t_min: Scalar,
        t_max: Scalar,
    ) -> (pass: bool)
        requires
            forall|b: Aabb, q: Ray, a: usize| a < 3 ==> slab_of.requires((b, q, a)),
        ensures
            exists|s: Slabs| #[trigger] box_test(*slab_of, *self, *r, t_min, t_max, s, pass),
    {
        let mut lo: Scalar = t_min;
        let mut hi: Scalar = t_max;
        let ghost mut seen = Slabs {
            x: Slab { enter: 0, exit: 0 },
            y: Slab { enter: 0, exit: 0 },
            z: Slab { enter: 0, exit: 0 },
        };
        let mut a: usize = 0;
        while a < 3
            invariant
                a <= 3,
                forall|b: Aabb, q: Ray, k: usize| k < 3 ==> slab_of.requires((b, q, k)),
                a >= 1 ==> slab_of.ensures((*self, *r, 0usize), seen.x),
                a >= 2 ==> slab_of.ensures((*self, *r, 1usize), seen.y),
                a >= 3 ==> slab_of.ensures((*self, *r, 2usize), seen.z),
                lo as int == if a == 0 {
                    t_min as int
                } else if a == 1 {
                    spec_max(t_min as int, seen.x.enter as int)
                } else if a == 2 {
                    spec_max(spec_max(t_min as int, seen.x.enter as int), seen.y.enter as int)
                } else {
                    narrowed_min(seen, t_min as int)
                },
                hi as int == if a == 0 {
                    t_max as int
                } else if a == 1 {
                    spec_min(t_max as int, seen.x.exit as int)
                } else if a == 2 {
                    spec_min(spec_min(t_max as int, seen.x.exit as int), seen.y.exit as int)
                } else {
                    narrowed_max(seen, t_max as int)
                },
                lo < hi || a == 0,
            decreases 3 - a,
        {
            let slab = slab_of(*self, *r, a);
            proof {
                seen = if a == 0 {
                    Slabs { x: slab, ..seen }
                } else if a == 1 {
                    Slabs { y: slab, ..seen }
                } else {
                    Slabs { z: slab, ..seen }
                };
            }
            lo = max_scalar(lo, slab.enter);
            hi = min_scalar(hi, slab.exit);
            if hi <= lo {
                proof {
                    assert(box_test(*slab_of, *self, *r, t_min, t_max, seen, false));
                }
                return false;
            }
            a += 1;
        }
        proof {
            assert(box_test(*slab_of, *self, *r, t_min, t_max, seen, true));
        }
        true
    }

    /// The box test answers as the three slabs say together: the ray passes
    /// exactly if the range narrowed by all three has a positive length. An
    /// axis that was not asked for changes nothing, as the range was empty
    /// before it.
    pub proof fn lemma_box_test_is_overlap<F: Fn(Aabb, Ray, usize) -> Slab>(
        self,
        slab_of: F,
        r: Ray,
        t_min: Scalar,
        t_max: Scalar,
        s: Slabs,
        pass: bool,
    )
        requires
            box_test(slab_of, self, r, t_min, t_max, s, pass),
        ensures
            pass == (narrowed_min(s, t_min as int) < narrowed_max(s, t_max as int)),
    {
    }

    /// A box that lies behind the ray is missed: if on some axis the ray
    /// starts outside the box and points away from it, and the range does not
    /// start before the ray does, the box test answers with a miss, whatever
    /// the other axes say.
    pub proof fn lemma_box_behind_is_missed<F: Fn(Aabb, Ray, usize) -> Slab>(
        self,
        slab_of: F,
        r: Ray,
        t_min: Scalar,
        t_max: Scalar,
        axis: int,
        s: Slabs,
        pass: bool,
    )
        requires
            slabs_keep_signs(slab_of),
            0 <= axis < 3,
            points_away(self, r, axis),
            t_min >= 0,
            box_test(slab_of, self, r, t_min, t_max, s, pass),
        ensures
            !pass,
    {
        if pass {
            assert(slab_of.ensures((self, r, 0usize), s.x));
            assert(slab_of.ensures((self, r, 1usize), s.y));
            assert(slab_of.ensures((self, r, 2usize), s.z));
            assert(s.on(axis).exit <= 0);
        }
    }
}

} // verus!
