use raytrace_core::aarect::{XYRect, XZRect, YZRect};
use raytrace_core::aabb::Aabb;
use raytrace_core::constant_medium::{clip_span, scatters_inside};
use raytrace_core::cylinder::{nearest_surface, try_cap_hit, try_side_hit, HitSurface};
use raytrace_core::hittable::HitRecord;
use raytrace_core::integrator::{next_bounce, sample_counts, Bounce};
use raytrace_core::material::{
    diffuse_scatter, fixed_scatter, lambertian_density, metal_scatter, reflects, ScatterRecord,
};
use raytrace_core::pdf::{part_for, CosinePdf, HittablePdf, MixturePdf, Part};
use raytrace_core::random::random_int;
use raytrace_core::ray::Ray;
use raytrace_core::sphere::nearest_root;
use raytrace_core::vec3::Vec3;

fn a_hit() -> HitRecord {
    HitRecord {
        p: Vec3::new(1, 2, 3),
        normal: Vec3::new(0, 1, 0),
        material: 7,
        t: 12,
        u: 0,
        v: 0,
        front_face: true,
    }
}

fn a_scatter(skip_pdf: bool) -> ScatterRecord {
    ScatterRecord {
        attenuation: Vec3::new(1, 1, 1),
        pdf_ptr: if skip_pdf { None } else { Some(CosinePdf::new(Vec3::new(0, 1, 0))) },
        skip_pdf,
        skip_pdf_ray: Ray::default(),
    }
}

#[test]
fn sphere_prefers_the_nearer_root() {
    assert_eq!(nearest_root(5, 9, 1, 20), Some(5));
    assert_eq!(nearest_root(5, 9, 5, 9), Some(5));
}

#[test]
fn sphere_falls_back_to_the_farther_root() {
    assert_eq!(nearest_root(5, 9, 6, 20), Some(9));
    assert_eq!(nearest_root(5, 9, 6, 9), Some(9));
}

#[test]
fn sphere_rejects_roots_outside_the_range() {
    assert_eq!(nearest_root(5, 9, 10, 20), None);
    assert_eq!(nearest_root(5, 9, 6, 8), None);
    assert_eq!(nearest_root(5, 9, 1, 4), None);
}

#[test]
fn sphere_tangent_ray_has_one_root() {
    assert_eq!(nearest_root(7, 7, 1, 20), Some(7));
}

#[test]
fn cylinder_picks_the_nearest_surface() {
    assert_eq!(nearest_surface(Some(4), Some(6), Some(2)), Some((2, HitSurface::Side)));
    assert_eq!(nearest_surface(Some(4), Some(3), Some(5)), Some((3, HitSurface::BottomCap)));
    assert_eq!(nearest_surface(Some(1), Some(3), Some(5)), Some((1, HitSurface::TopCap)));
    assert_eq!(nearest_surface(None, None, Some(5)), Some((5, HitSurface::Side)));
    assert_eq!(nearest_surface(None, None, None), None);
}

#[test]
fn cylinder_ties_go_to_the_earlier_surface() {
    assert_eq!(nearest_surface(Some(4), Some(4), Some(4)), Some((4, HitSurface::TopCap)));
    assert_eq!(nearest_surface(None, Some(4), Some(4)), Some((4, HitSurface::BottomCap)));
    assert_eq!(nearest_surface(Some(4), None, Some(4)), Some((4, HitSurface::TopCap)));
}

#[test]
fn cylinder_side_takes_the_smaller_valid_root() {
    assert_eq!(try_side_hit(3, true, 8, true, 1, 20), Some(3));
    assert_eq!(try_side_hit(8, true, 3, true, 1, 20), Some(3));
    assert_eq!(try_side_hit(3, false, 8, true, 1, 20), Some(8));
    assert_eq!(try_side_hit(3, true, 8, true, 4, 20), Some(8));
    assert_eq!(try_side_hit(3, false, 8, false, 1, 20), None);
    assert_eq!(try_side_hit(3, true, 8, true, 9, 20), None);
}

#[test]
fn cylinder_cap_needs_range_and_radius() {
    assert_eq!(try_cap_hit(5, true, 1, 9), Some(5));
    assert_eq!(try_cap_hit(5, false, 1, 9), None);
    assert_eq!(try_cap_hit(0, true, 1, 9), None);
    assert_eq!(try_cap_hit(10, true, 1, 9), None);
}

#[test]
fn medium_span_is_cut_to_the_range() {
    assert_eq!(clip_span(-5, 9, 1, 7), Some((1, 7)));
    assert_eq!(clip_span(2, 5, 1, 7), Some((2, 5)));
    assert_eq!(clip_span(-5, 9, -3, 7), Some((0, 7)));
    assert_eq!(clip_span(8, 9, -3, 7), None);
    assert_eq!(clip_span(3, 3, 1, 7), None);
}

#[test]
fn medium_scatters_within_the_boundary() {
    assert!(scatters_inside(3, 5));
    assert!(scatters_inside(5, 5));
    assert!(!scatters_inside(6, 5));
}

#[test]
fn rectangles_are_hit_within_their_sides() {
    let xy = XYRect::new(0, 10, 20, 30, 5, 1);
    assert!(xy.is_hit(4, 0, 30, 1, 9));
    assert!(!xy.is_hit(4, 11, 25, 1, 9));
    assert!(!xy.is_hit(4, 5, 19, 1, 9));
    assert!(!xy.is_hit(10, 5, 25, 1, 9));
    let xz = XZRect::new(0, 10, 20, 30, 5, 1);
    assert!(xz.is_hit(1, 10, 20, 1, 9));
    assert!(!xz.is_hit(0, 10, 20, 1, 9));
    let yz = YZRect::new(0, 10, 20, 30, 5, 1);
    assert!(yz.is_hit(9, 3, 22, 1, 9));
    assert!(!yz.is_hit(9, -1, 22, 1, 9));
}

#[test]
fn rectangle_boxes_reach_across_their_plane() {
    let xy = XYRect::new(0, 10, 20, 30, 5, 1);
    assert_eq!(xy.bounding_box(4, 6), Aabb::new(Vec3::new(0, 20, 4), Vec3::new(10, 30, 6)));
    let xz = XZRect::new(0, 10, 20, 30, 5, 1);
    assert_eq!(xz.bounding_box(4, 6), Aabb::new(Vec3::new(0, 4, 20), Vec3::new(10, 6, 30)));
    let yz = YZRect::new(0, 10, 20, 30, 5, 1);
    assert_eq!(yz.bounding_box(4, 6), Aabb::new(Vec3::new(4, 0, 20), Vec3::new(6, 10, 30)));
}

#[test]
fn a_ray_without_bounces_is_black() {
    assert_eq!(next_bounce(0, &Some(a_hit()), &Some(a_scatter(false))), Bounce::Exhausted);
    assert_eq!(next_bounce(0, &None, &None), Bounce::Exhausted);
}

#[test]
fn a_ray_that_misses_sees_the_background() {
    assert_eq!(next_bounce(5, &None, &None), Bounce::Background);
    assert_eq!(next_bounce(5, &None, &Some(a_scatter(true))), Bounce::Background);
}

#[test]
fn a_surface_that_does_not_scatter_only_emits() {
    assert_eq!(next_bounce(5, &Some(a_hit()), &None), Bounce::Emitted);
}

#[test]
fn scattered_rays_have_one_bounce_less() {
    assert_eq!(next_bounce(5, &Some(a_hit()), &Some(a_scatter(true))), Bounce::Specular { depth: 4 });
    assert_eq!(next_bounce(5, &Some(a_hit()), &Some(a_scatter(false))), Bounce::Sampled { depth: 4 });
    assert_eq!(next_bounce(1, &Some(a_hit()), &Some(a_scatter(false))), Bounce::Sampled { depth: 0 });
}

#[test]
fn a_sample_without_density_does_not_count() {
    assert!(!sample_counts(0));
    assert!(!sample_counts(-3));
    assert!(sample_counts(1));
}

#[test]
fn a_diffuse_surface_draws_around_its_normal() {
    let out = diffuse_scatter(Vec3::new(1, 2, 3), Vec3::new(0, 1, 0));
    assert_eq!(out.attenuation, Vec3::new(1, 2, 3));
    assert_eq!(out.pdf_ptr, Some(CosinePdf::new(Vec3::new(0, 1, 0))));
    assert!(!out.skip_pdf);
    assert_eq!(out.skip_pdf_ray, Ray::default());
}

#[test]
fn a_mirror_sends_on_along_a_fixed_ray() {
    let next = Ray::with_time(Vec3::new(1, 1, 1), Vec3::new(0, 0, 1), 5);
    let out = fixed_scatter(Vec3::new(1, 2, 3), next);
    assert_eq!(out.attenuation, Vec3::new(1, 2, 3));
    assert_eq!(out.pdf_ptr, None);
    assert!(out.skip_pdf);
    assert_eq!(out.skip_pdf_ray, next);
}

#[test]
fn metal_absorbs_a_reflection_into_the_surface() {
    let next = Ray::with_time(Vec3::new(1, 1, 1), Vec3::new(0, 0, 1), 5);
    assert_eq!(metal_scatter(Vec3::new(1, 2, 3), next, 0), None);
    assert_eq!(metal_scatter(Vec3::new(1, 2, 3), next, -4), None);
    assert_eq!(metal_scatter(Vec3::new(1, 2, 3), next, 1), Some(fixed_scatter(Vec3::new(1, 2, 3), next)));
}

#[test]
fn glass_reflects_or_refracts() {
    assert!(reflects(true, 0, 9));
    assert!(reflects(false, 9, 3));
    assert!(!reflects(false, 3, 3));
    assert!(!reflects(false, 3, 9));
}

#[test]
fn densities_are_zero_below_the_surface() {
    assert_eq!(lambertian_density(-1, 7), 0);
    assert_eq!(lambertian_density(0, 7), 7);
    assert_eq!(lambertian_density(3, 7), 7);
    assert_eq!(CosinePdf::value(-1, 7), 0);
    assert_eq!(CosinePdf::value(0, 7), 0);
    assert_eq!(CosinePdf::value(3, 7), 7);
}

#[test]
fn set_face_normal_turns_the_normal() {
    let mut rec = a_hit();
    rec.set_face_normal(false, Vec3::new(0, 1, 0), Vec3::new(0, -1, 0));
    assert!(!rec.front_face);
    assert_eq!(rec.normal, Vec3::new(0, -1, 0));
    rec.set_face_normal(true, Vec3::new(0, 1, 0), Vec3::new(0, -1, 0));
    assert!(rec.front_face);
    assert_eq!(rec.normal, Vec3::new(0, 1, 0));
    assert_eq!(rec.t, 12);
    assert_eq!(rec.material, 7);
}

#[test]
fn rays_keep_what_they_are_given() {
    let r = Ray::with_time(Vec3::new(1, 2, 3), Vec3::new(4, 5, 6), 9);
    assert_eq!(r.origin(), Vec3::new(1, 2, 3));
    assert_eq!(r.direction(), Vec3::new(4, 5, 6));
    assert_eq!(r.time(), 9);
    assert_eq!(Ray::new(Vec3::new(1, 2, 3), Vec3::new(4, 5, 6)).time(), 0);
    assert_eq!(Ray::default(), Ray::new(Vec3::new(0, 0, 0), Vec3::new(0, 0, 0)));
}

#[test]
fn mixture_draws_from_one_of_its_parts() {
    assert_eq!(part_for(true), Part::First);
    assert_eq!(part_for(false), Part::Second);
    let mix = MixturePdf::new(HittablePdf::new(3, Vec3::new(0, 0, 0)), CosinePdf::new(Vec3::new(0, 1, 0)));
    assert_eq!(mix.first.ptr, 3);
    assert_eq!(mix.second.w, Vec3::new(0, 1, 0));
    let mut first = 0;
    let mut second = 0;
    for _ in 0..400 {
        match mix.choose_part() {
            Part::First => first += 1,
            Part::Second => second += 1,
        }
    }
    assert!(first > 0 && second > 0);
}

#[test]
fn random_int_stays_in_its_range() {
    let mut seen = [false; 3];
    for _ in 0..300 {
        let r = random_int(0, 2);
        assert!((0..=2).contains(&r));
        seen[r as usize] = true;
    }
    assert!(seen[0] && seen[1] && seen[2]);
    assert_eq!(random_int(-4, -4), -4);
}
