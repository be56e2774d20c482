//! What can be hit by a ray, and the record of a hit.

use vstd::prelude::*;
use crate::aabb::Aabb;
use crate::ray::Ray;
use crate::vec3::{Point3, Scalar, Vec3};

verus! {

/// The record of one intersection.
#[derive(Clone, Copy, Debug, PartialEq, Eq, Structural)]
pub struct HitRecord {
    /// Where the ray meets the surface.
    pub p: Point3,
    /// The surface normal there, turned against the ray.
    pub normal: Vec3,
    /// The material of the surface, by its handle in the scene.
    pub material: usize,
    /// The ray parameter of the hit.
    pub t: Scalar,
    /// The texture coordinates of the hit.
    pub u: Scalar,
    pub v: Scalar,
    /// Whether the ray meets the surface from outside.
    pub front_face: bool,
}

impl HitRecord {
    /// Turns the normal against the ray: `front_face` says whether the ray
    /// meets the surface from outside, and the normal becomes
    /// `outward_normal` if it does and `inward_normal` if it does not.
    pub fn set_face_normal(
        &mut self,
        front_face: bool,
        outward_normal: Vec3,
        inward_normal: Vec3,
    )
        ensures
            *final(self) == (HitRecord {
                front_face,
                normal: if front_face {
                    outward_normal
                } else {
                    inward_normal
                },
                ..*old(self)
            }),
    {
        self.front_face = front_face;
        self.normal = if front_face {
            outward_normal
        } else {
            inward_normal
        };
    }
}

/// Anything a ray can hit.
///
/// An implementation says in `hit_outcome` what its `hit` may answer and in
/// `bounds` what its `bounding_box` answers. The library proves what its own
/// shapes do for every implementation; what is proved of a scene holds as far
/// as the scene's primitives keep to what they say.
pub trait Hittable {
    /// Whether `rec` is an answer that `hit` may give for the ray `r` over
    /// the range `[t_min, t_max]`.
    spec fn hit_outcome(
        &self,
        r: Ray,
        t_min: Scalar,
        t_max: Scalar,
        rec: Option<HitRecord>,
    ) -> bool;

    /// The box that `bounding_box` answers with, if the shape has one.
    spec fn bounds(&self, time0: Scalar, time1: Scalar) -> Option<Aabb>;

    /// The intersection of the ray `r` with the shape within `[t_min, t_max]`,
    /// if there is one.
    fn hit(&self, r: &Ray, t_min: Scalar, t_max: Scalar) -> (rec: Option<HitRecord>)
        ensures
            self.hit_outcome(*r, t_min, t_max, rec),
    ;

    /// A box that holds the shape from `time0` to `time1`, if it has one.
    fn bounding_box(&self, time0: Scalar, time1: Scalar) -> (b: Option<Aabb>)
        ensures
            b == self.bounds(time0, time1),
    ;
}

/// `rec` with its face turned: the same hit, seen from the other side.
pub open spec fn flipped(rec: Option<HitRecord>) -> Option<HitRecord> {
    match rec {
        Some(h) => Some(HitRecord { front_face: !h.front_face, ..h }),
        None => None,
    }
}

/// A shape seen from the other side: what it holds is hit as before, and
/// every hit reports the opposite face.
pub struct FlipFace<H: Hittable> {
    pub ptr: H,
}

impl<H: Hittable> FlipFace<H> {
    /// `ptr`, with its faces turned.
    pub fn new(ptr: H) -> (f: FlipFace<H>)
        ensures
            f.ptr == ptr,
    {
        FlipFace { ptr }
    }
}

impl<H: Hittable> Hittable for FlipFace<H> {
    /// The answers of the shape inside, each with its face turned.
    open spec fn hit_outcome(
        &self,
        r: Ray,
        t_min: Scalar,
        t_max: Scalar,
        rec: Option<HitRecord>,
    ) -> bool {
        self.ptr.hit_outcome(r, t_min, t_max, flipped(rec))
    }

    /// The box of the shape inside.
    open spec fn bounds(&self, time0: Scalar, time1: Scalar) -> Option<Aabb> {
        self.ptr.bounds(time0, time1)
    }

    fn hit(&self, r: &Ray, t_min: Scalar, t_max: Scalar) -> (rec: Option<HitRecord>) {
        match self.ptr.hit(r, t_min, t_max) {
            Some(h) => {
                let turned = HitRecord {
                    p: h.p,
                    normal: h.normal,
                    material: h.material,
                    t: h.t,
                    u: h.u,
                    v: h.v,
                    front_face: !h.front_face,
                };
                proof {
                    assert(flipped(Some(turned)) == Some(h));
                }
                Some(turned)
            },
            None => None,
        }
    }

    fn bounding_box(&self, time0: Scalar, time1: Scalar) -> (b: Option<Aabb>) {
        self.ptr.bounding_box(time0, time1)
    }
}

/// What is left of the answer `full` once the range ends at `bound`: the same
/// hit if it is no farther than `bound`, else none.
pub open spec fn narrowed(full: Option<HitRecord>, bound: Scalar) -> Option<HitRecord> {
    match full {
        Some(h) => if h.t <= bound {
            full
        } else {
            None
        },
        None => None,
    }
}

/// The shapes `objects` answer the ray `r` steadily, with `full` their
/// answers over the whole of `[t_min, t_max]`.
///
/// A shape answers steadily if its answer is decided by the ray and the
/// range, and a shorter range changes it only by losing a hit that lies
/// beyond its end: over `[t_min, bound]` it answers with what is left of its
/// answer over the whole range.
pub open spec fn steady<H: Hittable>(
    objects: Seq<H>,
    r: Ray,
    t_min: Scalar,
    t_max: Scalar,
    full: Seq<Option<HitRecord>>,
) -> bool {
    &&& full.len() == objects.len()
    &&& forall|i: int, bound: Scalar, rec: Option<HitRecord>|
        0 <= i < objects.len() && bound <= t_max && #[trigger] objects[i].hit_outcome(
            r,
            t_min,
            bound,
            rec,
        ) ==> rec == narrowed(full[i], bound)
}

/// `rec` is the closest of the hits `answers` within the range that ends at
/// `bound`: it is one of them and no farther than `bound`, and none of them
/// is nearer; there is none only if none of them lies within the range.
pub open spec fn is_closest(
    rec: Option<HitRecord>,
    answers: Seq<Option<HitRecord>>,
    bound: Scalar,
) -> bool {
    match rec {
        Some(h) => {
            &&& h.t <= bound
            &&& answers.contains(Some(h))
            &&& forall|k: int|
                0 <= k < answers.len() && (#[trigger] answers[k]).is_some() ==> h.t
                    <= answers[k].unwrap().t
        },
        None => forall|k: int|
            0 <= k < answers.len() ==> narrowed(#[trigger] answers[k], bound).is_none(),
    }
}

/// The closest hit of two runs of answers, from the closest of each: if `ra`
/// is the closest of `a` within `bound`, and `rb` the closest of `b` within
/// what `ra` leaves of the range, then `rb`, or `ra` where there is no `rb`,
/// is the closest of them all.
pub proof fn lemma_closest_of_both(
    a: Seq<Option<HitRecord>>,
    b: Seq<Option<HitRecord>>,
    bound: Scalar,
    ra: Option<HitRecord>,
    rb: Option<HitRecord>,
)
    requires
        is_closest(ra, a, bound),
        is_closest(
            rb,
            b,
            match ra {
                Some(h) => h.t,
                None => bound,
            },
        ),
    ensures
        is_closest(
            match rb {
                Some(_) => rb,
                None => ra,
            },
            a + b,
            bound,
        ),
{
    let both = a + b;
    let inner: Scalar = match ra {
        Some(h) => h.t,
        None => bound,
    };
    assert forall|k: int| 0 <= k < both.len() implies (#[trigger] both[k]) == (if k < a.len() {
        a[k]
    } else {
        b[k - a.len()]
    }) by {}
    match rb {
        Some(g) => {
            let w = choose|w: int| 0 <= w < b.len() && b[w] == Some(g);
            assert(both[w + a.len()] == Some(g));
            assert forall|k: int| 0 <= k < both.len() && (#[trigger] both[k]).is_some() implies g.t
                <= both[k].unwrap().t by {
                if k < a.len() {
                    assert(both[k] == a[k]);
                    if ra.is_none() {
                        assert(narrowed(a[k], bound).is_none());
                    }
                } else {
                    assert(both[k] == b[k - a.len()]);
                }
            }
        },
        None => {
            match ra {
                Some(h) => {
                    let w = choose|w: int| 0 <= w < a.len() && a[w] == Some(h);
                    assert(both[w] == Some(h));
                    assert forall|k: int|
                        0 <= k < both.len() && (#[trigger] both[k]).is_some() implies h.t
                        <= both[k].unwrap().t by {
                        if k < a.len() {
                            assert(both[k] == a[k]);
                        } else {
                            assert(both[k] == b[k - a.len()]);
                            assert(narrowed(b[k - a.len()], inner).is_none());
                        }
                    }
                },
                None => {
                    assert forall|k: int| 0 <= k < both.len() implies narrowed(
                        #[trigger] both[k],
                        bound,
                    ).is_none() by {
                        if k < a.len() {
                            assert(both[k] == a[k]);
                        } else {
                            assert(both[k] == b[k - a.len()]);
                        }
                    }
                },
            }
        },
    }
}

/// Two closest hits of the same answers are equally far: either there is
/// none, or both have the same ray parameter. Where no two of the answers are
/// equally far, they are the same hit.
pub proof fn lemma_closest_agree(
    x: Option<HitRecord>,
    y: Option<HitRecord>,
    answers: Seq<Option<HitRecord>>,
    bound: Scalar,
)
    requires
        is_closest(x, answers, bound),
        is_closest(y, answers, bound),
    ensures
        x.is_none() <==> y.is_none(),
        x.is_some() ==> x.unwrap().t == y.unwrap().t,
        (forall|i: int, j: int|
            0 <= i < j < answers.len() && (#[trigger] answers[i]).is_some() && (
            #[trigger] answers[j]).is_some() ==> answers[i].unwrap().t != answers[j].unwrap().t)
            ==> x == y,
{
    match x {
        Some(h) => {
            let w = choose|w: int| 0 <= w < answers.len() && answers[w] == Some(h);
            match y {
                Some(g) => {
                    let v = choose|v: int| 0 <= v < answers.len() && answers[v] == Some(g);
                    assert(answers[w].is_some() && answers[v].is_some());
                },
                None => {
                    assert(narrowed(answers[w], bound).is_none());
                },
            }
        },
        None => {
            match y {
                Some(g) => {
                    let v = choose|v: int| 0 <= v < answers.len() && answers[v] == Some(g);
                    assert(narrowed(answers[v], bound).is_none());
                },
                None => {},
            }
        },
    }
}

/// A shape seen from the other side answers steadily if the shape itself
/// does, with the same hit turned.
pub proof fn lemma_flip_is_steady<H: Hittable>(
    f: FlipFace<H>,
    r: Ray,
    t_min: Scalar,
    t_max: Scalar,
    full: Option<HitRecord>,
)
    requires
        steady(seq![f.ptr], r, t_min, t_max, seq![full]),
    ensures
        steady(seq![f], r, t_min, t_max, seq![flipped(full)]),
{
    let inner = seq![f.ptr];
    let outer = seq![f];
    let answer = seq![flipped(full)];
    assert forall|i: int, bound: Scalar, rec: Option<HitRecord>|
        0 <= i < outer.len() && bound <= t_max && #[trigger] outer[i].hit_outcome(
            r,
            t_min,
            bound,
            rec,
        ) implies rec == narrowed(answer[i], bound) by {
        assert(inner[0].hit_outcome(r, t_min, bound, flipped(rec)));
        assert(flipped(rec) == narrowed(seq![full][0], bound));
        assert(flipped(flipped(rec)) == rec);
    }
}

/// The shapes `objects` answer the ray `r` within the range they are asked
/// for: whatever the end `bound` of the range, a hit that one of them answers
/// with lies in `[t_min, bound]`.
pub open spec fn answers_within<H: Hittable>(objects: Seq<H>, r: Ray, t_min: Scalar) -> bool {
    forall|i: int, bound: Scalar, rec: Option<HitRecord>|
        0 <= i < objects.len() && #[trigger] objects[i].hit_outcome(r, t_min, bound, rec)
            && rec.is_some() ==> t_min <= rec.unwrap().t <= bound
}

/// `rec`, if it is a hit, lies in `[t_min, t_max]`.
pub open spec fn lies_within(rec: Option<HitRecord>, t_min: Scalar, t_max: Scalar) -> bool {
    rec.is_some() ==> t_min <= rec.unwrap().t <= t_max
}

} // verus!
