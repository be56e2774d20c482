use raytrace_core::aabb::Aabb;
use raytrace_core::bvh::{axis_for, BvhChild, BvhNode, Branch};
use raytrace_core::aarect::{XYRect, XZRect, YZRect};
use raytrace_core::cuboid::{cuboid_sides, Cuboid};
use raytrace_core::hittable::{HitRecord, Hittable};
use raytrace_core::hittable_list::HittableList;
use raytrace_core::ray::Ray;
use raytrace_core::render::{pixel_count, scanline};
use raytrace_core::vec3::Vec3;

/// A point-like shape at `(x, y, z)`, hit at the parameter `x`.
#[derive(Clone, Copy)]
struct Dot {
    x: i64,
    y: i64,
    z: i64,
}

impl Hittable for Dot {
    fn hit_outcome(&self, r: Ray, t_min: i64, t_max: i64, rec: Option<HitRecord>) -> bool {
        self.hit(&r, t_min, t_max) == rec
    }

    fn bounds(&self, time0: i64, time1: i64) -> Option<Aabb> {
        self.bounding_box(time0, time1)
    }

    fn hit(&self, _r: &Ray, t_min: i64, t_max: i64) -> Option<HitRecord> {
        if self.x < t_min || self.x > t_max {
            return None;
        }
        Some(HitRecord {
            p: Vec3::new(self.x, self.y, self.z),
            normal: Vec3::new(-1, 0, 0),
            material: 0,
            t: self.x,
            u: 0,
            v: 0,
            front_face: true,
        })
    }

    fn bounding_box(&self, _time0: i64, _time1: i64) -> Option<Aabb> {
        Some(Aabb::new(
            Vec3::new(self.x, self.y, self.z),
            Vec3::new(self.x + 1, self.y + 1, self.z + 1),
        ))
    }
}

fn leaves_of(child: &BvhChild, out: &mut Vec<usize>) {
    match child {
        BvhChild::Primitive(i) => out.push(*i),
        BvhChild::Node(n) => leaves_under(n, out),
    }
}

fn leaves_under(node: &Branch, out: &mut Vec<usize>) {
    leaves_of(&node.left, out);
    leaves_of(&node.right, out);
}

fn box_of(child: &BvhChild, dots: &[Dot]) -> Aabb {
    match child {
        BvhChild::Primitive(i) => dots[*i].bounding_box(0, 1).unwrap(),
        BvhChild::Node(n) => n.bbox,
    }
}

fn check_boxes(node: &Branch, dots: &[Dot]) {
    let l = box_of(&node.left, dots);
    let r = box_of(&node.right, dots);
    assert_eq!(node.bbox, Aabb::surrounding_box(&l, &r));
    if let BvhChild::Node(n) = &node.left {
        check_boxes(n, dots);
    }
    if let BvhChild::Node(n) = &node.right {
        check_boxes(n, dots);
    }
}

fn height(child: &BvhChild) -> usize {
    match child {
        BvhChild::Primitive(_) => 0,
        BvhChild::Node(n) => 1 + height(&n.left).max(height(&n.right)),
    }
}

fn dots(n: i64) -> Vec<Dot> {
    (0..n).map(|k| Dot { x: (k * 37) % 101, y: (k * 11) % 53, z: (k * 7) % 29 }).collect()
}

#[test]
fn bvh_holds_every_shape() {
    for n in [2i64, 3, 4, 5, 8, 13, 64, 100] {
        let shapes = dots(n);
        let bvh = BvhNode::new(shapes, 0, 1).unwrap();
        let mut leaves = Vec::new();
        leaves_under(&bvh.root, &mut leaves);
        leaves.sort();
        leaves.dedup();
        let all: Vec<usize> = (0..n as usize).collect();
        assert_eq!(leaves, all);
    }
}

#[test]
fn bvh_of_one_shape_has_it_on_both_sides() {
    let bvh = BvhNode::new(dots(1), 0, 1).unwrap();
    assert!(matches!(bvh.root.left, BvhChild::Primitive(0)));
    assert!(matches!(bvh.root.right, BvhChild::Primitive(0)));
    assert_eq!(bvh.root.bbox, Aabb::new(Vec3::new(0, 0, 0), Vec3::new(1, 1, 1)));
}

#[test]
fn bvh_boxes_are_unions_of_their_children() {
    for n in [2i64, 3, 7, 50] {
        let shapes = dots(n);
        let bvh = BvhNode::new(shapes.clone(), 0, 1).unwrap();
        check_boxes(&bvh.root, &shapes);
        assert_eq!(bvh.bounds.len(), shapes.len());
    }
}

#[test]
fn bvh_is_balanced() {
    let bvh = BvhNode::new(dots(64), 0, 1).unwrap();
    assert_eq!(1 + height(&bvh.root.left).max(height(&bvh.root.right)), 6);
    let odd = BvhNode::new(dots(5), 0, 1).unwrap();
    let mut left = Vec::new();
    leaves_of(&odd.root.left, &mut left);
    let mut right = Vec::new();
    leaves_of(&odd.root.right, &mut right);
    assert_eq!(left.len(), 2);
    assert_eq!(right.len(), 4);
    right.sort();
    right.dedup();
    assert_eq!(right.len(), 3);
}

#[test]
fn bvh_of_two_puts_the_smaller_on_the_left() {
    let a = Dot { x: 5, y: 5, z: 5 };
    let b = Dot { x: 1, y: 1, z: 1 };
    for _ in 0..20 {
        let bvh = BvhNode::new(vec![a, b], 0, 1).unwrap();
        assert!(matches!(bvh.root.left, BvhChild::Primitive(1)));
        assert!(matches!(bvh.root.right, BvhChild::Primitive(0)));
    }
    let same = BvhNode::new(vec![a, a], 0, 1).unwrap();
    assert!(matches!(same.root.left, BvhChild::Primitive(1)));
    assert!(matches!(same.root.right, BvhChild::Primitive(0)));
}

fn least_and_greatest(child: &BvhChild, dots: &[Dot]) -> (i64, i64) {
    let mut leaves = Vec::new();
    leaves_of(child, &mut leaves);
    let xs: Vec<i64> = leaves.iter().map(|i| dots[*i].x).collect();
    (*xs.iter().min().unwrap(), *xs.iter().max().unwrap())
}

fn check_order(node: &Branch, dots: &[Dot]) {
    let (_, left_greatest) = least_and_greatest(&node.left, dots);
    let (right_least, _) = least_and_greatest(&node.right, dots);
    assert!(left_greatest <= right_least);
    if let BvhChild::Node(n) = &node.left {
        check_order(n, dots);
    }
    if let BvhChild::Node(n) = &node.right {
        check_order(n, dots);
    }
}

#[test]
fn bvh_puts_the_smaller_half_on_the_left() {
    // The shapes lie on the diagonal, so that they come in the same order on
    // every axis; they are given from the greatest down.
    for n in [3i64, 4, 9, 33] {
        let shapes: Vec<Dot> = (0..n).rev().map(|k| Dot { x: 10 * k, y: 10 * k, z: 10 * k }).collect();
        let bvh = BvhNode::new(shapes.clone(), 0, 1).unwrap();
        check_order(&bvh.root, &shapes);
    }
}

#[test]
fn bvh_keeps_equal_shapes_in_their_order() {
    let same = Dot { x: 4, y: 4, z: 4 };
    let bvh = BvhNode::new(vec![same; 4], 0, 1).unwrap();
    let mut left = Vec::new();
    leaves_of(&bvh.root.left, &mut left);
    let mut right = Vec::new();
    leaves_of(&bvh.root.right, &mut right);
    assert_eq!(left, vec![1, 0]);
    assert_eq!(right, vec![3, 2]);
}

#[test]
fn a_draw_stands_for_an_axis() {
    assert_eq!(axis_for(0), 0);
    assert_eq!(axis_for(1), 1);
    assert_eq!(axis_for(2), 2);
    assert_eq!(axis_for(-1), 2);
    assert_eq!(axis_for(7), 2);
}

#[test]
fn cuboid_is_hit_through_its_sides() {
    let mut sides: HittableList<Dot> = HittableList::new();
    sides.add(Dot { x: 9, y: 0, z: 0 });
    sides.add(Dot { x: 4, y: 0, z: 0 });
    let c = Cuboid::new(Vec3::new(4, 0, 0), Vec3::new(9, 1, 1), sides);
    let r = Ray::default();
    assert_eq!(c.hit(&r, 1, 100).unwrap().t, 4);
    assert_eq!(c.hit(&r, 5, 100).unwrap().t, 9);
    assert_eq!(c.hit(&r, 10, 100), None);
    assert_eq!(c.bounding_box(0, 1), Some(Aabb::new(Vec3::new(4, 0, 0), Vec3::new(9, 1, 1))));
}

#[test]
fn cuboid_has_its_six_sides() {
    let (xy, xz, yz) = cuboid_sides(Vec3::new(1, 2, 3), Vec3::new(4, 5, 6), 9);
    assert_eq!(xy, vec![XYRect::new(1, 4, 2, 5, 6, 9), XYRect::new(1, 4, 2, 5, 3, 9)]);
    assert_eq!(xz, vec![XZRect::new(1, 4, 3, 6, 5, 9), XZRect::new(1, 4, 3, 6, 2, 9)]);
    assert_eq!(yz, vec![YZRect::new(2, 5, 3, 6, 4, 9), YZRect::new(2, 5, 3, 6, 1, 9)]);
}

#[test]
fn corners_count_through_the_axes() {
    let b = Aabb::new(Vec3::new(1, 2, 3), Vec3::new(4, 5, 6));
    let c = b.corners();
    assert_eq!(c.len(), 8);
    assert_eq!(c[0], Vec3::new(1, 2, 3));
    assert_eq!(c[1], Vec3::new(1, 2, 6));
    assert_eq!(c[2], Vec3::new(1, 5, 3));
    assert_eq!(c[3], Vec3::new(1, 5, 6));
    assert_eq!(c[4], Vec3::new(4, 2, 3));
    assert_eq!(c[5], Vec3::new(4, 2, 6));
    assert_eq!(c[6], Vec3::new(4, 5, 3));
    assert_eq!(c[7], Vec3::new(4, 5, 6));
}

#[test]
fn envelope_is_the_smallest_box_around_points() {
    let points = vec![Vec3::new(3, -1, 0), Vec3::new(-2, 7, 0), Vec3::new(0, 0, 9)];
    assert_eq!(Aabb::envelope(&points), Some(Aabb::new(Vec3::new(-2, -1, 0), Vec3::new(3, 7, 9))));
    assert_eq!(
        Aabb::envelope(&vec![Vec3::new(3, -1, 0)]),
        Some(Aabb::new(Vec3::new(3, -1, 0), Vec3::new(3, -1, 0)))
    );
    assert_eq!(Aabb::envelope(&Vec::new()), None);
    let b = Aabb::new(Vec3::new(1, 2, 3), Vec3::new(4, 5, 6));
    assert_eq!(Aabb::envelope(&b.corners()), Some(b));
}

#[test]
fn image_rows_run_from_the_top() {
    assert_eq!(scanline(22, 0), 21);
    assert_eq!(scanline(22, 21), 0);
    assert_eq!(scanline(22, 5), 16);
    assert_eq!(scanline(1, 0), 0);
}

#[test]
fn pixels_are_counted() {
    assert_eq!(pixel_count(40, 22), Some(880));
    assert_eq!(pixel_count(0, 22), Some(0));
    assert_eq!(pixel_count(-1, 22), None);
    assert_eq!(pixel_count(40, -22), None);
    assert_eq!(pixel_count(i32::MAX, i32::MAX), Some(2147483647usize * 2147483647usize));
}
