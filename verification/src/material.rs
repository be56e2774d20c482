//! Materials: how a surface scatters and emits light.

use vstd::prelude::*;
use crate::hittable::HitRecord;
use crate::pdf::CosinePdf;
use crate::ray::Ray;
use crate::texture::{Color, Texture};
use crate::vec3::{Point3, Scalar, Vec3};

verus! {

/// What a material does with a ray that hits it.
#[derive(Clone, Copy, Debug, PartialEq, Eq, Structural)]
pub struct ScatterRecord {
    /// How much of each colour is kept.
    pub attenuation: Color,
    /// The distribution from which the next direction is drawn, where the
    /// material scatters diffusely.
    pub pdf_ptr: Option<CosinePdf>,
    /// Whether the next ray is fixed, as for a mirror or for glass.
    pub skip_pdf: bool,
    /// The next ray, where it is fixed.
    pub skip_pdf_ray: Ray,
}

/// The colour of no light.
pub open spec fn black() -> Color {
    Vec3 { x: 0, y: 0, z: 0 }
}

/// Anything a surface can be made of.
///
/// An implementation says in `scatter_outcome` what its `scatter` may answer,
/// in `emission` what it emits, and in `density` what its `scattering_pdf`
/// answers.
pub trait Material {
    /// Whether `out` is an answer that `scatter` may give.
    spec fn scatter_outcome(&self, r_in: Ray, rec: HitRecord, out: Option<ScatterRecord>) -> bool;

    /// The light that the surface emits at a hit.
    spec fn emission(&self, u: Scalar, v: Scalar, p: Point3, rec: HitRecord) -> Color;

    /// The density with which the material scatters `r_in` into `scattered`.
    spec fn density(&self, r_in: Ray, rec: HitRecord, scattered: Ray) -> Scalar;

    /// How the ray `r_in` is scattered at the hit `rec`, if it is.
    fn scatter(&self, r_in: &Ray, rec: &HitRecord) -> (out: Option<ScatterRecord>)
        ensures
            self.scatter_outcome(*r_in, *rec, out),
    ;

    /// The light that the surface emits at the hit `rec`.
    fn emitted(&self, u: Scalar, v: Scalar, p: &Point3, rec: &HitRecord) -> (c: Color)
        ensures
            c == self.emission(u, v, *p, *rec),
    ;

    /// The density with which the material scatters `r_in` into `scattered`.
    fn scattering_pdf(&self, r_in: &Ray, rec: &HitRecord, scattered: &Ray) -> (d: Scalar)
        ensures
            d == self.density(*r_in, *rec, *scattered),
    ;
}

/// The material of nothing: it neither scatters nor emits.
#[derive(Clone, Copy, Debug, PartialEq, Eq, Structural)]
pub struct EmptyMaterial;

impl Material for EmptyMaterial {
    /// Never scatters.
    open spec fn scatter_outcome(
        &self,
        r_in: Ray,
        rec: HitRecord,
        out: Option<ScatterRecord>,
    ) -> bool {
        out.is_none()
    }

    /// Emits nothing.
    open spec fn emission(&self, u: Scalar, v: Scalar, p: Point3, rec: HitRecord) -> Color {
        black()
    }

    /// Scatters with density zero.
    open spec fn density(&self, r_in: Ray, rec: HitRecord, scattered: Ray) -> Scalar {
        0
    }

    fn scatter(&self, r_in: &Ray, rec: &HitRecord) -> (out: Option<ScatterRecord>) {
        None
    }

    fn emitted(&self, u: Scalar, v: Scalar, p: &Point3, rec: &HitRecord) -> (c: Color) {
        Vec3::new(0, 0, 0)
    }

    fn scattering_pdf(&self, r_in: &Ray, rec: &HitRecord, scattered: &Ray) -> (d: Scalar) {
        0
    }
}

/// A light: it never scatters, and emits the colour of its texture from its
/// front face only.
pub struct DiffuseLight<T: Texture> {
    pub emit: T,
}

impl<T: Texture> DiffuseLight<T> {
    /// The light that emits the colours of `emit`.
    pub fn new(emit: T) -> (light: DiffuseLight<T>)
        ensures
            light.emit == emit,
    {
        DiffuseLight { emit }
    }
}

impl<T: Texture> Material for DiffuseLight<T> {
    /// Never scatters.
    open spec fn scatter_outcome(
        &self,
        r_in: Ray,
        rec: HitRecord,
        out: Option<ScatterRecord>,
    ) -> bool {
        out.is_none()
    }

    /// The colour of the texture on the front face, nothing on the back.
    open spec fn emission(&self, u: Scalar, v: Scalar, p: Point3, rec: HitRecord) -> Color {
        if rec.front_face {
            self.emit.color_at(u, v, p)
        } else {
            black()
        }
    }

    /// Scatters with density zero.
    open spec fn density(&self, r_in: Ray, rec: HitRecord, scattered: Ray) -> Scalar {
        0
    }

    fn scatter(&self, r_in: &Ray, rec: &HitRecord) -> (out: Option<ScatterRecord>) {
        None
    }

    fn emitted(&self, u: Scalar, v: Scalar, p: &Point3, rec: &HitRecord) -> (c: Color) {
        if rec.front_face {
            self.emit.value(u, v, p)
        } else {
            Vec3::new(0, 0, 0)
        }
    }

    fn scattering_pdf(&self, r_in: &Ray, rec: &HitRecord, scattered: &Ray) -> (d: Scalar) {
        0
    }
}

/// The ray at rest: from the origin, with no direction, at time zero.
pub open spec fn ray_at_rest() -> Ray {
    Ray { origin: Vec3 { x: 0, y: 0, z: 0 }, direction: Vec3 { x: 0, y: 0, z: 0 }, time: 0 }
}

/// How a diffuse surface scatters: it keeps `attenuation` of the light and
/// draws the next direction from the cosine-weighted distribution around its
/// normal `normal`; no ray is fixed.
pub fn diffuse_scatter(attenuation: Color, normal: Vec3) -> (out: ScatterRecord)
    ensures
        out == (ScatterRecord {
            attenuation,
            pdf_ptr: Some(CosinePdf { w: normal }),
            skip_pdf: false,
            skip_pdf_ray: ray_at_rest(),
        }),
{
    ScatterRecord {
        attenuation,
        pdf_ptr: Some(CosinePdf::new(normal)),
        skip_pdf: false,
        skip_pdf_ray: Ray::default(),
    }
}

/// How a mirror or glass scatters: it keeps `attenuation` of the light and
/// sends it on along the fixed ray `next`; no direction is drawn.
pub fn fixed_scatter(attenuation: Color, next: Ray) -> (out: ScatterRecord)
    ensures
        out == (ScatterRecord { attenuation, pdf_ptr: None, skip_pdf: true, skip_pdf_ray: next }),
{
    ScatterRecord { attenuation, pdf_ptr: None, skip_pdf: true, skip_pdf_ray: next }
}

/// How metal scatters a ray that it reflects along `reflected`, given how far
/// the reflection points out of the surface: `facing` is the product of the
/// reflected direction and the normal. A reflection that does not point out
/// of the surface is absorbed; another is sent on along `reflected`.
pub fn metal_scatter(attenuation: Color, reflected: Ray, facing: Scalar) -> (out: Option<
    ScatterRecord,
>)
    ensures
        out == if facing <= 0 {
            None
        } else {
            Some(
                ScatterRecord {
                    attenuation,
                    pdf_ptr: None,
                    skip_pdf: true,
                    skip_pdf_ray: reflected,
                },
            )
        },
{
    if facing <= 0 {
        None
    } else {
        Some(fixed_scatter(attenuation, reflected))
    }
}

/// Whether glass reflects a ray rather than refracts it: it does if the ray
/// cannot be refracted at all, or if the reflectance of the glass at the
/// ray's angle is greater than the number `drawn` at random.
pub fn reflects(cannot_refract: bool, reflectance: Scalar, drawn: Scalar) -> (b: bool)
    ensures
        b == (cannot_refract || reflectance > drawn),
{
    cannot_refract || reflectance > drawn
}

/// The density with which a diffuse surface scatters into a direction, given
/// the cosine of the angle between the direction and the normal and the
/// density that belongs to it: zero for a direction below the surface.
pub fn lambertian_density(cosine: Scalar, density: Scalar) -> (d: Scalar)
    ensures
        d == if cosine < 0 {
            0
        } else {
            density
        },
{
    if cosine < 0 {
        0
    } else {
        density
    }
}

} // verus!
