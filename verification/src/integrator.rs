//! The decisions of the radiance estimator.

use vstd::prelude::*;
use crate::hittable::HitRecord;
use crate::material::ScatterRecord;
use crate::vec3::Scalar;

verus! {

/// What becomes of a ray on one bounce.
#[derive(Clone, Copy, Debug, PartialEq, Eq, Structural)]
pub enum Bounce {
    /// The ray has no bounces left: it carries no light.
    Exhausted,
    /// The ray hits nothing: it carries the light of the background.
    Background,
    /// The ray hits a surface that does not scatter: it carries what the
    /// surface emits.
    Emitted,
    /// The ray hits a surface that sends it on along a fixed ray: it carries
    /// what the surface emits, and the attenuated light of that ray, which
    /// has `depth` bounces left.
    Specular { depth: u32 },
    /// The ray hits a surface that scatters it: it carries what the surface
    /// emits, and the weighted light of a sampled ray, which has `depth`
    /// bounces left.
    Sampled { depth: u32 },
}

/// What becomes of a ray that has `depth` bounces left, hits `hit` and is
/// scattered as `scatter` says.
pub open spec fn bounce_of(depth: u32, hit: Option<HitRecord>, scatter: Option<ScatterRecord>)
    -> Bounce {
    if depth == 0 {
        Bounce::Exhausted
    } else if hit.is_none() {
        Bounce::Background
    } else if scatter.is_none() {
        Bounce::Emitted
    } else if scatter.unwrap().skip_pdf {
        Bounce::Specular { depth: (depth - 1) as u32 }
    } else {
        Bounce::Sampled { depth: (depth - 1) as u32 }
    }
}

/// What becomes of a ray that has `depth` bounces left, hits `hit` and is
/// scattered as `scatter` says.
pub fn next_bounce(depth: u32, hit: &Option<HitRecord>, scatter: &Option<ScatterRecord>) -> (b:
    Bounce)
    ensures
        b == bounce_of(depth, *hit, *scatter),
{
    if depth == 0 {
        return Bounce::Exhausted;
    }
    if hit.is_none() {
        return Bounce::Background;
    }
    match scatter {
        None => Bounce::Emitted,
        Some(srec) => {
            if srec.skip_pdf {
                Bounce::Specular { depth: depth - 1 }
            } else {
                Bounce::Sampled { depth: depth - 1 }
            }
        },
    }
}

/// Whether a sampled ray counts: it does if the density with which it was
/// drawn is greater than zero. A ray drawn with no density adds nothing to
/// what the surface emits.
pub fn sample_counts(pdf_val: Scalar) -> (counts: bool)
    ensures
        counts == (pdf_val > 0),
{
    pdf_val > 0
}

/// Every chain of bounces ends: a ray that is sent on has fewer bounces left
/// than the ray that was scattered.
pub proof fn lemma_bounces_run_out(
    depth: u32,
    hit: Option<HitRecord>,
    scatter: Option<ScatterRecord>,
)
    ensures
        match bounce_of(depth, hit, scatter) {
            Bounce::Specular { depth: next } => next < depth,
            Bounce::Sampled { depth: next } => next < depth,
            _ => true,
        },
{
}

} // verus!
