use raytrace_core::aabb::{slabs_overlap, Aabb, Slab, Slabs};
use raytrace_core::compare::{box_compare, box_compare_x, box_compare_y, box_compare_z};
use raytrace_core::interval::{clamp, within};
use raytrace_core::vec3::{max_scalar, min_scalar, Vec3};
use std::cmp::Ordering;

fn bx(min: (i64, i64, i64), max: (i64, i64, i64)) -> Aabb {
    Aabb::new(Vec3::new(min.0, min.1, min.2), Vec3::new(max.0, max.1, max.2))
}

fn sample_boxes() -> Vec<Aabb> {
    vec![
        bx((0, 0, 0), (1, 1, 1)),
        bx((-4, 2, 7), (-1, 9, 8)),
        bx((3, -6, -2), (5, -5, 12)),
        bx((i64::MIN, 0, 0), (i64::MAX, 0, 0)),
        bx((2, 2, 2), (2, 2, 2)),
    ]
}

#[test]
fn vec3_components_by_axis() {
    let v = Vec3::new(4, -5, 6);
    assert_eq!(v.index(0), 4);
    assert_eq!(v.index(1), -5);
    assert_eq!(v.index(2), 6);
    assert_eq!(min_scalar(3, -3), -3);
    assert_eq!(max_scalar(3, -3), 3);
}

#[test]
fn aabb_keeps_its_corners() {
    let b = bx((1, 2, 3), (4, 5, 6));
    assert_eq!(b.min(), Vec3::new(1, 2, 3));
    assert_eq!(b.max(), Vec3::new(4, 5, 6));
}

#[test]
fn surrounding_box_takes_extremes() {
    let u = Aabb::surrounding_box(&bx((0, 0, 0), (1, 1, 1)), &bx((-1, 2, 0), (0, 3, 5)));
    assert_eq!(u, bx((-1, 0, 0), (1, 3, 5)));
}

#[test]
fn surrounding_box_is_commutative() {
    let boxes = sample_boxes();
    for a in boxes.iter() {
        for b in boxes.iter() {
            assert_eq!(Aabb::surrounding_box(a, b), Aabb::surrounding_box(b, a));
        }
    }
}

#[test]
fn surrounding_box_is_associative() {
    let boxes = sample_boxes();
    for a in boxes.iter() {
        for b in boxes.iter() {
            for c in boxes.iter() {
                let left = Aabb::surrounding_box(&Aabb::surrounding_box(a, b), c);
                let right = Aabb::surrounding_box(a, &Aabb::surrounding_box(b, c));
                assert_eq!(left, right);
            }
        }
    }
}

#[test]
fn surrounding_box_contains_both_inputs() {
    let boxes = sample_boxes();
    for a in boxes.iter() {
        for b in boxes.iter() {
            let u = Aabb::surrounding_box(a, b);
            for inner in [a, b] {
                assert!(u.minimum.x <= inner.minimum.x && inner.maximum.x <= u.maximum.x);
                assert!(u.minimum.y <= inner.minimum.y && inner.maximum.y <= u.maximum.y);
                assert!(u.minimum.z <= inner.minimum.z && inner.maximum.z <= u.maximum.z);
            }
        }
    }
}

#[test]
fn slabs_overlap_stops_at_an_empty_axis() {
    let open = Slab { enter: -100, exit: 100 };
    let hit = Slabs { x: Slab { enter: 2, exit: 9 }, y: Slab { enter: 4, exit: 6 }, z: open };
    assert!(slabs_overlap(&hit, 0, 50));
    assert!(slabs_overlap(&hit, 5, 50));
    assert!(!slabs_overlap(&hit, 6, 50));
    assert!(!slabs_overlap(&hit, 0, 4));
    let miss = Slabs { x: Slab { enter: 2, exit: 3 }, y: Slab { enter: 4, exit: 6 }, z: open };
    assert!(!slabs_overlap(&miss, 0, 50));
}

#[test]
fn slabs_of_a_box_behind_the_ray_do_not_overlap() {
    let open = Slab { enter: -100, exit: 100 };
    let behind = Slabs { x: Slab { enter: -9, exit: -3 }, y: open, z: open };
    assert!(!slabs_overlap(&behind, 0, 1000));
    assert_eq!(behind.index(0), Slab { enter: -9, exit: -3 });
    assert_eq!(behind.index(2), open);
}

#[test]
fn boxes_compare_by_their_minimum() {
    let a = bx((1, 5, 3), (9, 9, 9));
    let b = bx((2, 5, 0), (9, 9, 9));
    assert_eq!(box_compare_x(&a, &b), Ordering::Less);
    assert_eq!(box_compare_y(&a, &b), Ordering::Equal);
    assert_eq!(box_compare_z(&a, &b), Ordering::Greater);
    assert_eq!(box_compare(&b, &a, 0), Ordering::Greater);
    assert_eq!(box_compare(&a, &b, 2), Ordering::Greater);
}

#[test]
fn clamp_brings_into_the_range() {
    assert_eq!(clamp(5, 1, 3), 3);
    assert_eq!(clamp(-5, 1, 3), 1);
    assert_eq!(clamp(2, 1, 3), 2);
    assert_eq!(clamp(1, 1, 3), 1);
    assert_eq!(clamp(3, 1, 3), 3);
    assert!(within(3, 1, 3));
    assert!(within(1, 1, 3));
    assert!(!within(0, 1, 3));
    assert!(!within(4, 1, 3));
}
