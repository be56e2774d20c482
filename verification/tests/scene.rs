use raytrace_core::aabb::{slabs_overlap, Aabb, Slab, Slabs};
use std::cell::Cell;
use raytrace_core::bvh::{BuildError, BvhNode};
use raytrace_core::hittable::{FlipFace, HitRecord, Hittable};
use raytrace_core::hittable_list::HittableList;
use raytrace_core::ray::Ray;
use raytrace_core::vec3::Vec3;

/// A plate across the x axis at `x = at`, hit by every ray at parameter `at`.
#[derive(Clone, Copy)]
struct Plate {
    at: i64,
    material: usize,
    boxed: bool,
}

impl Hittable for Plate {
    fn hit_outcome(&self, r: Ray, t_min: i64, t_max: i64, rec: Option<HitRecord>) -> bool {
        self.hit(&r, t_min, t_max) == rec
    }

    fn bounds(&self, time0: i64, time1: i64) -> Option<Aabb> {
        self.bounding_box(time0, time1)
    }

    fn hit(&self, _r: &Ray, t_min: i64, t_max: i64) -> Option<HitRecord> {
        if self.at < t_min || self.at > t_max {
            return None;
        }
        Some(HitRecord {
            p: Vec3::new(self.at, 0, 0),
            normal: Vec3::new(-1, 0, 0),
            material: self.material,
            t: self.at,
            u: 0,
            v: 0,
            front_face: true,
        })
    }

    fn bounding_box(&self, _time0: i64, _time1: i64) -> Option<Aabb> {
        if self.boxed {
            Some(Aabb::new(Vec3::new(self.at - 1, -5, -5), Vec3::new(self.at + 1, 5, 5)))
        } else {
            None
        }
    }
}

fn plate(at: i64, material: usize) -> Plate {
    Plate { at, material, boxed: true }
}

/// The slab of a box on one axis for a ray along the x axis from the origin:
/// the box is entered at its smallest x and left at its largest; on the other
/// axes the ray is inside throughout if the box holds the axis.
fn slab_along_x(b: Aabb, _r: Ray, axis: usize) -> Slab {
    let inside = |lo: i64, hi: i64| {
        if lo <= 0 && 0 <= hi {
            Slab { enter: i64::MIN, exit: i64::MAX }
        } else {
            Slab { enter: i64::MAX, exit: i64::MIN }
        }
    };
    match axis {
        0 => Slab { enter: b.minimum.x, exit: b.maximum.x },
        1 => inside(b.minimum.y, b.maximum.y),
        _ => inside(b.minimum.z, b.maximum.z),
    }
}

fn x_ray() -> Ray {
    Ray::new(Vec3::new(0, 0, 0), Vec3::new(1, 0, 0))
}

#[test]
fn list_hit_returns_the_closest_member() {
    let mut list: HittableList<Plate> = HittableList::new();
    list.add(plate(30, 0));
    list.add(plate(10, 1));
    list.add(plate(20, 2));
    let rec = list.hit(&x_ray(), 1, 1000).unwrap();
    assert_eq!(rec.t, 10);
    assert_eq!(rec.material, 1);
}

#[test]
fn list_hit_respects_the_range() {
    let mut list: HittableList<Plate> = HittableList::new();
    list.add(plate(30, 0));
    list.add(plate(10, 1));
    assert_eq!(list.hit(&x_ray(), 11, 29), None);
    assert_eq!(list.hit(&x_ray(), 11, 30).unwrap().material, 0);
}

#[test]
fn list_hit_of_equal_hits_keeps_the_later() {
    let mut list: HittableList<Plate> = HittableList::new();
    list.add(plate(10, 0));
    list.add(plate(10, 1));
    assert_eq!(list.hit(&x_ray(), 1, 1000).unwrap().material, 1);
}

#[test]
fn empty_list_has_no_hit_and_no_box() {
    let list: HittableList<Plate> = HittableList::new();
    assert_eq!(list.hit(&x_ray(), 1, 1000), None);
    assert_eq!(list.bounding_box(0, 1), None);
}

#[test]
fn list_box_is_the_union_of_member_boxes() {
    let mut list: HittableList<Plate> = HittableList::new();
    list.add(plate(30, 0));
    list.add(plate(10, 1));
    list.add(plate(20, 2));
    let b = list.bounding_box(0, 1).unwrap();
    assert_eq!(b, Aabb::new(Vec3::new(9, -5, -5), Vec3::new(31, 5, 5)));
}

#[test]
fn list_with_an_unbounded_member_has_no_box() {
    let mut list: HittableList<Plate> = HittableList::new();
    list.add(plate(30, 0));
    list.add(Plate { at: 5, material: 1, boxed: false });
    assert_eq!(list.bounding_box(0, 1), None);
}

#[test]
fn clear_empties_the_list() {
    let mut list: HittableList<Plate> = HittableList::new();
    list.add(plate(30, 0));
    list.clear();
    assert_eq!(list.objects.len(), 0);
}

#[test]
fn random_index_is_a_position_of_the_list() {
    let mut list: HittableList<Plate> = HittableList::new();
    for k in 0..5 {
        list.add(plate(10 * (k + 1), 0));
    }
    for _ in 0..200 {
        assert!(list.random_index() < 5);
    }
}

#[test]
fn flip_face_turns_the_face_only() {
    let inner = plate(10, 3);
    let flipped = FlipFace::new(inner);
    let plain = inner.hit(&x_ray(), 1, 100).unwrap();
    let turned = flipped.hit(&x_ray(), 1, 100).unwrap();
    assert_eq!(turned.front_face, !plain.front_face);
    assert_eq!(turned.t, plain.t);
    assert_eq!(turned.p, plain.p);
    assert_eq!(turned.normal, plain.normal);
    assert_eq!(turned.material, plain.material);
    assert_eq!(flipped.bounding_box(0, 1), inner.bounding_box(0, 1));
    assert_eq!(flipped.hit(&x_ray(), 11, 100), None);
}

#[test]
fn bvh_over_nothing_is_refused() {
    let r = BvhNode::<Plate>::new(Vec::new(), 0, 1);
    assert!(matches!(r, Err(BuildError::Empty)));
}

#[test]
fn bvh_over_an_unbounded_shape_is_refused() {
    let shapes = vec![plate(10, 0), Plate { at: 5, material: 1, boxed: false }, plate(7, 2)];
    let r = BvhNode::new(shapes, 0, 1);
    assert!(matches!(r, Err(BuildError::Unbounded(1))));
}

/// A shape that has a box over an interval that lasts, and none at a single
/// moment.
#[derive(Clone, Copy)]
struct Passing {
    at: i64,
}

impl Hittable for Passing {
    fn hit_outcome(&self, r: Ray, t_min: i64, t_max: i64, rec: Option<HitRecord>) -> bool {
        self.hit(&r, t_min, t_max) == rec
    }

    fn bounds(&self, time0: i64, time1: i64) -> Option<Aabb> {
        self.bounding_box(time0, time1)
    }

    fn hit(&self, r: &Ray, t_min: i64, t_max: i64) -> Option<HitRecord> {
        plate(self.at, 0).hit(r, t_min, t_max)
    }

    fn bounding_box(&self, time0: i64, time1: i64) -> Option<Aabb> {
        if time0 < time1 {
            plate(self.at, 0).bounding_box(time0, time1)
        } else {
            None
        }
    }
}

#[test]
fn bvh_of_a_lone_shape_asks_for_no_box_at_time_zero() {
    let lone = Passing { at: 10 };
    assert_eq!(lone.bounding_box(0, 0), None);
    let bvh = BvhNode::new(vec![lone], 0, 1).unwrap();
    assert_eq!(bvh.bounding_box(0, 1), lone.bounding_box(0, 1));
    assert_eq!(bvh.bounds[0].bbox, lone.bounding_box(0, 1).unwrap());
    assert_eq!(bvh.hit(&slab_along_x, &x_ray(), 1, 100).unwrap().t, 10);
}

#[test]
fn bvh_of_a_lone_shape_needs_its_box_over_the_interval() {
    let r = BvhNode::new(vec![Passing { at: 10 }], 1, 1);
    assert!(matches!(r, Err(BuildError::Unbounded(0))));
}

#[test]
fn bvh_of_two_shapes_needs_their_boxes_at_time_zero() {
    let r = BvhNode::new(vec![Passing { at: 10 }, Passing { at: 20 }], 0, 1);
    assert!(matches!(r, Err(BuildError::Unbounded(0))));
}

#[test]
fn box_test_stops_at_the_first_empty_axis() {
    let b = Aabb::new(Vec3::new(3, -5, -5), Vec3::new(7, 5, 5));
    let asked = Cell::new(0);
    let counted = |b: Aabb, r: Ray, axis: usize| {
        asked.set(asked.get() + 1);
        slab_along_x(b, r, axis)
    };
    assert!(b.hit(&counted, &x_ray(), 0, 10));
    assert_eq!(asked.get(), 3);
    asked.set(0);
    assert!(!b.hit(&counted, &x_ray(), 7, 10));
    assert_eq!(asked.get(), 1);
    asked.set(0);
    let off_axis = Aabb::new(Vec3::new(3, 2, -5), Vec3::new(7, 5, 5));
    assert!(!off_axis.hit(&counted, &x_ray(), 0, 10));
    assert_eq!(asked.get(), 2);
}

#[test]
fn box_test_needs_a_stretch_of_positive_length() {
    let b = Aabb::new(Vec3::new(3, -5, -5), Vec3::new(7, 5, 5));
    assert!(b.hit(&slab_along_x, &x_ray(), 6, 10));
    assert!(!b.hit(&slab_along_x, &x_ray(), 0, 3));
    assert!(b.hit(&slab_along_x, &x_ray(), 0, 4));
}

#[test]
fn a_box_behind_the_ray_is_missed() {
    let behind = Aabb::new(Vec3::new(-9, -5, -5), Vec3::new(-3, 5, 5));
    assert!(!behind.hit(&slab_along_x, &x_ray(), 0, 1000));
    assert!(!behind.hit(&slab_along_x, &x_ray(), 1, i64::MAX));
}

#[test]
fn bvh_box_holds_every_shape() {
    let shapes: Vec<Plate> = (0..37).map(|k| plate(100 - 2 * k, k as usize)).collect();
    let bvh = BvhNode::new(shapes, 0, 1).unwrap();
    let b = bvh.bounding_box(0, 1).unwrap();
    assert_eq!(b, Aabb::new(Vec3::new(27, -5, -5), Vec3::new(101, 5, 5)));
}

#[test]
fn bvh_hit_agrees_with_a_scan() {
    let ats: [i64; 9] = [50, 13, 77, 21, 90, 34, 8, 61, 45];
    let shapes: Vec<Plate> = ats.iter().enumerate().map(|(k, at)| plate(*at, k)).collect();
    let mut list: HittableList<Plate> = HittableList::new();
    for s in shapes.iter() {
        list.add(*s);
    }
    let bvh = BvhNode::new(shapes, 0, 1).unwrap();
    for t_min in [1i64, 9, 14, 46, 62, 91] {
        for t_max in [5i64, 8, 20, 45, 60, 100] {
            let by_scan = list.hit(&x_ray(), t_min, t_max);
            let by_tree = bvh.hit(&slab_along_x, &x_ray(), t_min, t_max);
            assert_eq!(by_tree, by_scan);
        }
    }
}

#[test]
fn bvh_of_one_shape_hits_it() {
    let bvh = BvhNode::new(vec![plate(10, 4)], 0, 1).unwrap();
    let rec = bvh.hit(&slab_along_x, &x_ray(), 1, 100).unwrap();
    assert_eq!(rec.material, 4);
    assert_eq!(bvh.hit(&slab_along_x, &x_ray(), 11, 100), None);
}

#[test]
fn slabs_overlap_needs_a_stretch_of_positive_length() {
    let open = Slab { enter: i64::MIN, exit: i64::MAX };
    let s = Slabs { x: Slab { enter: 3, exit: 7 }, y: open, z: open };
    assert!(slabs_overlap(&s, 0, 10));
    assert!(slabs_overlap(&s, 6, 10));
    assert!(!slabs_overlap(&s, 7, 10));
    assert!(!slabs_overlap(&s, 0, 3));
    assert!(slabs_overlap(&s, 0, 4));
    let shut = Slabs { x: Slab { enter: 3, exit: 7 }, y: Slab { enter: 8, exit: 9 }, z: open };
    assert!(!slabs_overlap(&shut, 0, 10));
}
