//! A list of shapes, hit as one.

use vstd::prelude::*;
use crate::aabb::Aabb;
use crate::hittable::{
    answers_within, is_closest, lies_within, narrowed, steady, HitRecord, Hittable,
};
use crate::random::random_int;
use crate::ray::Ray;
use crate::vec3::Scalar;

verus! {

/// An unordered collection of shapes.
pub struct HittableList<H: Hittable> {
    pub objects: Vec<H>,
}

/// The upper end of the range that is left to search once `best` is found:
/// the parameter of `best`, or `t_max` as long as nothing is found.
pub open spec fn bound_after(best: Option<HitRecord>, t_max: Scalar) -> Scalar {
    match best {
        Some(h) => h.t,
        None => t_max,
    }
}

/// The best hit once a shape has answered `found`: `found` if it is a hit,
/// else what was best before.
pub open spec fn keep_closer(prev: Option<HitRecord>, found: Option<HitRecord>) -> Option<
    HitRecord,
> {
    match found {
        Some(_) => found,
        None => prev,
    }
}

/// One step of a scan: the shape `object`, asked within what `prev` leaves of
/// the range, may answer `found`, which makes `best` the best hit.
pub open spec fn scan_step<H: Hittable>(
    object: H,
    r: Ray,
    t_min: Scalar,
    t_max: Scalar,
    prev: Option<HitRecord>,
    found: Option<HitRecord>,
    best: Option<HitRecord>,
) -> bool {
    &&& object.hit_outcome(r, t_min, bound_after(prev, t_max), found)
    &&& best == keep_closer(prev, found)
}

/// Whether `best` may be the best hit after the first `upto` shapes of
/// `objects` were asked in turn, each within what the hits before it left of
/// `[t_min, t_max]`.
pub open spec fn scan_outcome<H: Hittable>(
    objects: Seq<H>,
    r: Ray,
    t_min: Scalar,
    t_max: Scalar,
    upto: int,
    best: Option<HitRecord>,
) -> bool
    decreases upto,
{
    if upto <= 0 {
        best.is_none()
    } else {
        exists|prev: Option<HitRecord>, found: Option<HitRecord>|
            scan_outcome(objects, r, t_min, t_max, upto - 1, prev) && #[trigger] scan_step(
                objects[upto - 1],
                r,
                t_min,
                t_max,
                prev,
                found,
                best,
            )
    }
}

/// The boxes of `objects` from `time0` to `time1`, one for each shape.
pub open spec fn member_bounds<H: Hittable>(objects: Seq<H>, time0: Scalar, time1: Scalar) -> Seq<
    Option<Aabb>,
> {
    Seq::new(objects.len(), |i: int| objects[i].bounds(time0, time1))
}

/// Every one of `boxes` is there.
pub open spec fn all_bounded(boxes: Seq<Option<Aabb>>) -> bool {
    forall|i: int| 0 <= i < boxes.len() ==> (#[trigger] boxes[i]).is_some()
}

/// The union of the first `upto` boxes, of which there is at least one.
pub open spec fn union_of(boxes: Seq<Option<Aabb>>, upto: int) -> Aabb
    decreases upto,
{
    if upto <= 1 {
        boxes[0].unwrap()
    } else {
        Aabb::union(union_of(boxes, upto - 1), boxes[upto - 1].unwrap())
    }
}

/// The box of a list whose members have the boxes `boxes`: none for an empty
/// list and none if a member has none, else the union of them all.
pub open spec fn list_bounds(boxes: Seq<Option<Aabb>>) -> Option<Aabb> {
    if boxes.len() == 0 || !all_bounded(boxes) {
        None
    } else {
        Some(union_of(boxes, boxes.len() as int))
    }
}

impl<H: Hittable> HittableList<H> {
    /// The empty list.
    pub fn new() -> (list: HittableList<H>)
        ensures
            list.objects@ == Seq::<H>::empty(),
    {
        HittableList { objects: Vec::new() }
    }

    /// Puts `object` at the end of the list.
    pub fn add(&mut self, object: H)
        ensures
            final(self).objects@ == old(self).objects@.push(object),
    {
        self.objects.push(object);
    }

    /// Empties the list.
    pub fn clear(&mut self)
        ensures
            final(self).objects@ == Seq::<H>::empty(),
    {
        self.objects.clear();
    }

    /// The position of one member, drawn at random. The list must not be
    /// empty, and no longer than an `i32` counts.
    pub fn random_index(&self) -> (idx: usize)
        requires
            0 < self.objects.len() <= i32::MAX,
        ensures
            idx < self.objects.len(),
    {
        let last: i32 = (self.objects.len() - 1) as i32;
        let drawn: i32 = random_int(0, last);
        drawn as usize
    }
}

impl<H: Hittable> Hittable for HittableList<H> {
    /// What a scan of all members may leave as the best hit.
    open spec fn hit_outcome(
        &self,
        r: Ray,
        t_min: Scalar,
        t_max: Scalar,
        rec: Option<HitRecord>,
    ) -> bool {
        scan_outcome(self.objects@, r, t_min, t_max, self.objects@.len() as int, rec)
    }

    /// The box of the list, from the boxes of its members.
    open spec fn bounds(&self, time0: Scalar, time1: Scalar) -> Option<Aabb> {
        list_bounds(member_bounds(self.objects@, time0, time1))
    }

    /// Asks every member in turn, each only for a hit that is no farther than
    /// the best so far, and answers with the last hit found.
    fn hit(&self, r: &Ray, t_min: Scalar, t_max: Scalar) -> (rec: Option<HitRecord>) {
        let mut closest_so_far: Scalar = t_max;
        let mut hit_record: Option<HitRecord> = None;
        let n = self.objects.len();
        let mut i: usize = 0;
        while i < n
            invariant
                i <= n,
                n == self.objects.len(),
                closest_so_far == bound_after(hit_record, t_max),
                scan_outcome(self.objects@, *r, t_min, t_max, i as int, hit_record),
            decreases n - i,
        {
            let ghost prev = hit_record;
            let found = self.objects[i].hit(r, t_min, closest_so_far);
            if let Some(temp_rec) = found {
                closest_so_far = temp_rec.t;
                hit_record = Some(temp_rec);
            }
            proof {
                assert(scan_step(
                    self.objects@[i + 1 - 1],
                    *r,
                    t_min,
                    t_max,
                    prev,
                    found,
                    hit_record,
                ));
            }
            i += 1;
        }
        hit_record
    }

    /// The union of the members' boxes; none for an empty list, and none as
    /// soon as a member has none.
    fn bounding_box(&self, time0: Scalar, time1: Scalar) -> (b: Option<Aabb>) {
        let n = self.objects.len();
        if n == 0 {
            return None;
        }
        let ghost boxes = member_bounds(self.objects@, time0, time1);
        let mut output_box: Option<Aabb> = None;
        let mut i: usize = 0;
        while i < n
            invariant
                i <= n,
                n == self.objects.len(),
                boxes == member_bounds(self.objects@, time0, time1),
                forall|k: int| 0 <= k < i ==> (#[trigger] boxes[k]).is_some(),
                i == 0 ==> output_box.is_none(),
                i > 0 ==> output_box == Some(union_of(boxes, i as int)),
            decreases n - i,
        {
            match self.objects[i].bounding_box(time0, time1) {
                Some(bbox) => {
                    output_box = Some(
                        match output_box {
                            None => bbox,
                            Some(prev_box) => Aabb::surrounding_box(&prev_box, &bbox),
                        },
                    );
                },
                None => {
                    proof {
                        assert(boxes[i as int].is_none());
                    }
                    return None;
                },
            }
            i += 1;
        }
        output_box
    }
}

/// A scan of shapes that answer steadily leaves the closest of their hits.
///
/// After the first `upto` shapes the best hit is one of their hits within the
/// range, none of their hits is nearer, and there is none only if none of
/// them has a hit within the range.
pub proof fn lemma_scan_finds_closest<H: Hittable>(
    objects: Seq<H>,
    r: Ray,
    t_min: Scalar,
    t_max: Scalar,
    full: Seq<Option<HitRecord>>,
    upto: int,
    best: Option<HitRecord>,
)
    requires
        steady(objects, r, t_min, t_max, full),
        0 <= upto <= objects.len(),
        scan_outcome(objects, r, t_min, t_max, upto, best),
    ensures
        is_closest(best, full.take(upto), t_max),
    decreases upto,
{
    if upto > 0 {
        let (prev, found) = choose|prev: Option<HitRecord>, found: Option<HitRecord>|
            scan_outcome(objects, r, t_min, t_max, upto - 1, prev) && #[trigger] scan_step(
                objects[upto - 1],
                r,
                t_min,
                t_max,
                prev,
                found,
                best,
            );
        lemma_scan_finds_closest(objects, r, t_min, t_max, full, upto - 1, prev);
        let before = full.take(upto - 1);
        let now = full.take(upto);
        assert(found == narrowed(full[upto - 1], bound_after(prev, t_max)));
        assert(now[upto - 1] == full[upto - 1]);
        assert forall|k: int| 0 <= k < upto - 1 implies #[trigger] now[k] == before[k] by {}
        match best {
            Some(h) => {
                if found.is_some() {
                    assert(now[upto - 1] == Some(h));
                } else {
                    let w = choose|w: int| 0 <= w < before.len() && before[w] == Some(h);
                    assert(now[w] == Some(h));
                }
                assert(now.contains(Some(h)));
                assert forall|k: int| 0 <= k < now.len() && now[k].is_some() implies h.t
                    <= (#[trigger] now[k]).unwrap().t by {
                    if k < upto - 1 {
                        assert(before[k] == now[k]);
                    }
                }
            },
            None => {
                assert forall|k: int| 0 <= k < now.len() implies narrowed(
                    #[trigger] now[k],
                    t_max,
                ).is_none() by {
                    if k < upto - 1 {
                        assert(before[k] == now[k]);
                    }
                }
            },
        }
    }
}

/// The hit of a list of shapes that answer steadily is the closest of their
/// hits: the same as asking every shape over the whole range and keeping the
/// nearest answer.
pub proof fn lemma_list_hit_is_closest<H: Hittable>(
    list: HittableList<H>,
    r: Ray,
    t_min: Scalar,
    t_max: Scalar,
    full: Seq<Option<HitRecord>>,
    rec: Option<HitRecord>,
)
    requires
        steady(list.objects@, r, t_min, t_max, full),
        list.hit_outcome(r, t_min, t_max, rec),
    ensures
        is_closest(rec, full, t_max),
{
    lemma_scan_finds_closest(
        list.objects@,
        r,
        t_min,
        t_max,
        full,
        list.objects@.len() as int,
        rec,
    );
    assert(full.take(full.len() as int) =~= full);
}

/// The union of boxes encloses each of them.
pub proof fn lemma_union_of_encloses(boxes: Seq<Option<Aabb>>, upto: int, i: int)
    requires
        0 <= i < upto <= boxes.len(),
    ensures
        union_of(boxes, upto).encloses(boxes[i].unwrap()),
    decreases upto,
{
    if upto > 1 {
        Aabb::lemma_union_encloses(union_of(boxes, upto - 1), boxes[upto - 1].unwrap());
        if i < upto - 1 {
            lemma_union_of_encloses(boxes, upto - 1, i);
            Aabb::lemma_encloses_transitive(
                union_of(boxes, upto),
                union_of(boxes, upto - 1),
                boxes[i].unwrap(),
            );
        }
    }
}

/// The box of a list encloses the box of each of its members.
pub proof fn lemma_list_box_encloses_members<H: Hittable>(
    list: HittableList<H>,
    time0: Scalar,
    time1: Scalar,
    i: int,
)
    requires
        0 <= i < list.objects@.len(),
        list.bounds(time0, time1).is_some(),
    ensures
        list.objects@[i].bounds(time0, time1).is_some(),
        list.bounds(time0, time1).unwrap().encloses(
            list.objects@[i].bounds(time0, time1).unwrap(),
        ),
{
    let boxes = member_bounds(list.objects@, time0, time1);
    assert(boxes[i].is_some());
    lemma_union_of_encloses(boxes, boxes.len() as int, i);
}

/// The best hit that a scan leaves of shapes whose answers over the whole
/// range are `full`, after the first `upto` of them, over the range that ends
/// at `bound`: each answer counts if it is no farther than the best before
/// it.
pub open spec fn scan_of(full: Seq<Option<HitRecord>>, upto: int, bound: Scalar) -> Option<
    HitRecord,
>
    decreases upto,
{
    if upto <= 0 {
        None
    } else {
        let prev = scan_of(full, upto - 1, bound);
        keep_closer(prev, narrowed(full[upto - 1], bound_after(prev, bound)))
    }
}

/// What a scan leaves is no farther than the end of the range, and a shorter
/// range changes it only by losing a hit that lies beyond its end.
pub proof fn lemma_scan_of_narrows(
    full: Seq<Option<HitRecord>>,
    upto: int,
    t_max: Scalar,
    bound: Scalar,
)
    requires
        bound <= t_max,
    ensures
        scan_of(full, upto, t_max).is_some() ==> scan_of(full, upto, t_max).unwrap().t <= t_max,
        scan_of(full, upto, bound) == narrowed(scan_of(full, upto, t_max), bound),
    decreases upto,
{
    if upto > 0 {
        lemma_scan_of_narrows(full, upto - 1, t_max, bound);
    }
}

/// A scan of shapes that answer steadily is decided by their answers.
pub proof fn lemma_scan_is_decided<H: Hittable>(
    objects: Seq<H>,
    r: Ray,
    t_min: Scalar,
    t_max: Scalar,
    full: Seq<Option<HitRecord>>,
    bound: Scalar,
    upto: int,
    best: Option<HitRecord>,
)
    requires
        steady(objects, r, t_min, t_max, full),
        bound <= t_max,
        0 <= upto <= objects.len(),
        scan_outcome(objects, r, t_min, bound, upto, best),
    ensures
        best == scan_of(full, upto, bound),
    decreases upto,
{
    if upto > 0 {
        let (prev, found) = choose|prev: Option<HitRecord>, found: Option<HitRecord>|
            scan_outcome(objects, r, t_min, bound, upto - 1, prev) && #[trigger] scan_step(
                objects[upto - 1],
                r,
                t_min,
                bound,
                prev,
                found,
                best,
            );
        lemma_scan_is_decided(objects, r, t_min, t_max, full, bound, upto - 1, prev);
        lemma_scan_of_narrows(full, upto - 1, bound, bound);
        assert(bound_after(prev, bound) <= t_max);
    }
}

/// A list of shapes that answer steadily answers steadily itself.
pub proof fn lemma_list_is_steady<H: Hittable>(
    list: HittableList<H>,
    r: Ray,
    t_min: Scalar,
    t_max: Scalar,
    full: Seq<Option<HitRecord>>,
)
    requires
        steady(list.objects@, r, t_min, t_max, full),
    ensures
        steady(
            seq![list],
            r,
            t_min,
            t_max,
            seq![scan_of(full, list.objects@.len() as int, t_max)],
        ),
{
    let n = list.objects@.len() as int;
    let whole = seq![list];
    let answer = seq![scan_of(full, n, t_max)];
    assert forall|i: int, bound: Scalar, rec: Option<HitRecord>|
        0 <= i < whole.len() && bound <= t_max && #[trigger] whole[i].hit_outcome(
            r,
            t_min,
            bound,
            rec,
        ) implies rec == narrowed(answer[i], bound) by {
        lemma_scan_is_decided(list.objects@, r, t_min, t_max, full, bound, n, rec);
        lemma_scan_of_narrows(full, n, t_max, bound);
    }
}

/// What a scan leaves lies within the range, if every shape answers within
/// the range it is asked for.
pub proof fn lemma_scan_lies_within<H: Hittable>(
    objects: Seq<H>,
    r: Ray,
    t_min: Scalar,
    t_max: Scalar,
    upto: int,
    best: Option<HitRecord>,
)
    requires
        answers_within(objects, r, t_min),
        0 <= upto <= objects.len(),
        scan_outcome(objects, r, t_min, t_max, upto, best),
    ensures
        lies_within(best, t_min, t_max),
    decreases upto,
{
    if upto > 0 {
        let (prev, found) = choose|prev: Option<HitRecord>, found: Option<HitRecord>|
            scan_outcome(objects, r, t_min, t_max, upto - 1, prev) && #[trigger] scan_step(
                objects[upto - 1],
                r,
                t_min,
                t_max,
                prev,
                found,
                best,
            );
        lemma_scan_lies_within(objects, r, t_min, t_max, upto - 1, prev);
    }
}

/// The hit of a list lies in `[t_min, t_max]`, if every member answers within
/// the range it is asked for.
pub proof fn lemma_list_hit_lies_within<H: Hittable>(
    list: HittableList<H>,
    r: Ray,
    t_min: Scalar,
    t_max: Scalar,
    rec: Option<HitRecord>,
)
    requires
        answers_within(list.objects@, r, t_min),
        list.hit_outcome(r, t_min, t_max, rec),
    ensures
        lies_within(rec, t_min, t_max),
{
    lemma_scan_lies_within(list.objects@, r, t_min, t_max, list.objects@.len() as int, rec);
}

} // verus!
