use raytrace_core::hittable::HitRecord;
use raytrace_core::material::{DiffuseLight, EmptyMaterial, Material, ScatterRecord};
use raytrace_core::perlin::{Perlin, POINT_COUNT};
use raytrace_core::ray::Ray;
use raytrace_core::texture::{CheckerTexture, ImageTexture, Rgb, SolidColor, Texture};
use raytrace_core::vec3::Vec3;

fn hit_from(front_face: bool) -> HitRecord {
    HitRecord {
        p: Vec3::new(1, 2, 3),
        normal: Vec3::new(0, 1, 0),
        material: 0,
        t: 12,
        u: 0,
        v: 0,
        front_face,
    }
}

fn gradients() -> Vec<Vec3> {
    (0..POINT_COUNT as i64).map(|k| Vec3::new(k, 2 * k, 3 * k)).collect()
}

#[test]
fn empty_material_neither_scatters_nor_emits() {
    let m = EmptyMaterial;
    let r = Ray::default();
    let rec = hit_from(true);
    let out: Option<ScatterRecord> = m.scatter(&r, &rec);
    assert_eq!(out, None);
    assert_eq!(m.emitted(0, 0, &rec.p, &rec), Vec3::new(0, 0, 0));
    assert_eq!(m.scattering_pdf(&r, &rec, &r), 0);
}

#[test]
fn diffuse_light_emits_from_its_front_only() {
    let light = DiffuseLight::new(SolidColor::from_rgb(7, 8, 9));
    let r = Ray::default();
    let front = hit_from(true);
    let back = hit_from(false);
    assert_eq!(light.emitted(0, 0, &front.p, &front), Vec3::new(7, 8, 9));
    assert_eq!(light.emitted(0, 0, &back.p, &back), Vec3::new(0, 0, 0));
    assert_eq!(light.scatter(&r, &front), None);
    assert_eq!(light.scattering_pdf(&r, &front, &r), 0);
}

#[test]
fn solid_color_is_the_same_everywhere() {
    let t = SolidColor::new(Vec3::new(1, 2, 3));
    assert_eq!(t.value(0, 0, &Vec3::new(0, 0, 0)), Vec3::new(1, 2, 3));
    assert_eq!(t.value(5, 9, &Vec3::new(4, 4, 4)), Vec3::new(1, 2, 3));
}

#[test]
fn checker_picks_by_the_field() {
    let t = CheckerTexture::from_colors(Vec3::new(1, 1, 1), Vec3::new(2, 2, 2));
    let p = Vec3::new(0, 0, 0);
    assert_eq!(t.value_on(false, 0, 0, &p), Vec3::new(1, 1, 1));
    assert_eq!(t.value_on(true, 0, 0, &p), Vec3::new(2, 2, 2));
    let nested = CheckerTexture::new(SolidColor::from_rgb(5, 5, 5), SolidColor::from_rgb(6, 6, 6));
    assert_eq!(nested.value_on(true, 0, 0, &p), Vec3::new(6, 6, 6));
}

#[test]
fn image_texel_is_brought_back_into_the_image() {
    let pixels: Vec<Rgb> = (0..6u8).map(|k| Rgb { r: k, g: 10 + k, b: 20 + k }).collect();
    let t = ImageTexture::from_pixels(pixels, 3, 2);
    assert_eq!(t.texel(0, 0), Some(Rgb { r: 0, g: 10, b: 20 }));
    assert_eq!(t.texel(2, 1), Some(Rgb { r: 5, g: 15, b: 25 }));
    assert_eq!(t.texel(1, 1), Some(Rgb { r: 4, g: 14, b: 24 }));
    assert_eq!(t.texel(3, 0), Some(Rgb { r: 2, g: 12, b: 22 }));
    assert_eq!(t.texel(0, 2), Some(Rgb { r: 3, g: 13, b: 23 }));
    assert_eq!(t.texel(99, 99), Some(Rgb { r: 5, g: 15, b: 25 }));
}

#[test]
fn image_without_pixels_has_no_texel() {
    assert_eq!(ImageTexture::missing().texel(0, 0), None);
    let wrong = ImageTexture::from_pixels(vec![Rgb { r: 1, g: 2, b: 3 }], 2, 2);
    assert!(wrong.pixels.is_none());
    assert_eq!(wrong.texel(0, 0), None);
    let flat = ImageTexture::from_pixels(Vec::new(), 0, 5);
    assert_eq!(flat.texel(0, 0), None);
}

#[test]
fn perlin_tables_are_permutations() {
    for _ in 0..20 {
        let p = Perlin::perlin_generate_perm();
        assert_eq!(p.len(), POINT_COUNT);
        let mut seen = vec![false; POINT_COUNT];
        for v in p.iter() {
            assert!(!seen[*v]);
            seen[*v] = true;
        }
    }
}

#[test]
fn perlin_permute_keeps_what_is_there() {
    let mut p: Vec<usize> = vec![5, 5, 9, 1, 0, 7];
    Perlin::permute(&mut p);
    let mut sorted = p.clone();
    sorted.sort();
    assert_eq!(sorted, vec![0, 1, 5, 5, 7, 9]);
    let mut one: Vec<usize> = vec![4];
    Perlin::permute(&mut one);
    assert_eq!(one, vec![4]);
    let mut none: Vec<usize> = Vec::new();
    Perlin::permute(&mut none);
    assert!(none.is_empty());
}

#[test]
fn perlin_shuffle_follows_its_draws() {
    let mut p: Vec<usize> = vec![10, 20, 30, 40];
    assert!(Perlin::shuffle_with(&mut p, &vec![0, 1, 1]));
    assert_eq!(p, vec![40, 30, 20, 10]);

    let mut q: Vec<usize> = vec![10, 20, 30, 40];
    assert!(Perlin::shuffle_with(&mut q, &vec![3, 2, 1]));
    assert_eq!(q, vec![10, 20, 30, 40]);

    let mut r: Vec<usize> = vec![10, 20, 30, 40];
    assert!(Perlin::shuffle_with(&mut r, &vec![0]));
    assert_eq!(r, vec![40, 20, 30, 10]);
    assert!(Perlin::shuffle_with(&mut r, &Vec::new()));
    assert_eq!(r, vec![40, 20, 30, 10]);

    let mut two: Vec<usize> = vec![7, 8];
    assert!(Perlin::shuffle_with(&mut two, &vec![0]));
    assert_eq!(two, vec![8, 7]);
}

#[test]
fn perlin_shuffle_refuses_draws_that_do_not_fit() {
    let start: Vec<usize> = vec![10, 20, 30, 40];
    for draws in [vec![4usize], vec![0, 3], vec![0, 0, 2], vec![0, 0, 0, 0], vec![3, 2, 1, 0]] {
        let mut p = start.clone();
        assert!(!Perlin::shuffle_with(&mut p, &draws));
        assert_eq!(p, start);
    }
    let mut none: Vec<usize> = Vec::new();
    assert!(!Perlin::shuffle_with(&mut none, &vec![0]));
    assert!(Perlin::shuffle_with(&mut none, &Vec::new()));
}

#[test]
fn perlin_permute_does_shuffle() {
    let start: Vec<usize> = (0..POINT_COUNT).collect();
    let mut moved = false;
    for _ in 0..5 {
        let mut p = start.clone();
        Perlin::permute(&mut p);
        if p != start {
            moved = true;
        }
    }
    assert!(moved);
}

#[test]
fn perlin_needs_all_its_gradients() {
    assert!(Perlin::new(Vec::new()).is_none());
    assert!(Perlin::new(vec![Vec3::new(0, 0, 0); POINT_COUNT - 1]).is_none());
    assert!(Perlin::new(gradients()).is_some());
}

#[test]
fn perlin_gradient_follows_the_tables() {
    let noise = Perlin::new(gradients()).unwrap();
    for (i, j, k) in [(0, 0, 0), (1, 2, 3), (-1, -2, -3), (255, 256, 257), (i32::MAX, i32::MIN, 77)] {
        let idx = noise.perm_x[(i & 255) as usize]
            ^ noise.perm_y[(j & 255) as usize]
            ^ noise.perm_z[(k & 255) as usize];
        assert!(idx < POINT_COUNT);
        assert_eq!(noise.gradient(i, j, k), noise.ranvec[idx]);
    }
    assert_eq!(Perlin::table_place(-1), 255);
    assert_eq!(Perlin::table_place(256), 0);
    assert_eq!(Perlin::table_place(513), 1);
}

#[test]
fn perlin_lattice_repeats_every_256() {
    let noise = Perlin::new(gradients()).unwrap();
    assert_eq!(noise.gradient(3, 4, 5), noise.gradient(3 + 256, 4 - 256, 5 + 512));
}
