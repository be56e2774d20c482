//! The stretch of a ray inside a participating medium.

use vstd::prelude::*;
use crate::vec3::{max_scalar, min_scalar, spec_max, spec_min, Scalar};

verus! {

/// The part of a ray inside the boundary of a medium that counts: the ray
/// enters the boundary at `enter` and leaves it at `exit`; what lies outside
/// `[t_min, t_max]` is cut off, nothing is left if the rest has no length,
/// and the rest does not start before the ray does, at zero.
pub open spec fn clipped_span(enter: int, exit: int, t_min: int, t_max: int) -> Option<(int, int)> {
    let from = spec_max(enter, t_min);
    let to = spec_min(exit, t_max);
    if from >= to {
        None
    } else {
        Some((spec_max(from, 0), to))
    }
}

/// The part of a ray inside the boundary of a medium that counts.
pub fn clip_span(enter: Scalar, exit: Scalar, t_min: Scalar, t_max: Scalar) -> (span: Option<
    (Scalar, Scalar),
>)
    ensures
        match span {
            Some((from, to)) => clipped_span(
                enter as int,
                exit as int,
                t_min as int,
                t_max as int,
            ) == Some((from as int, to as int)),
            None => clipped_span(enter as int, exit as int, t_min as int, t_max as int).is_none(),
        },
{
    let mut from = max_scalar(enter, t_min);
    let to = min_scalar(exit, t_max);
    if from >= to {
        return None;
    }
    if from < 0 {
        from = 0;
    }
    Some((from, to))
}

/// Whether a ray is scattered inside the medium: it is, unless the distance
/// it flies freely is greater than the distance it spends inside.
pub fn scatters_inside(hit_distance: Scalar, distance_inside_boundary: Scalar) -> (scatters: bool)
    ensures
        scatters == (hit_distance <= distance_inside_boundary),
{
    !(hit_distance > distance_inside_boundary)
}

/// A span that is left lies within the range and within the boundary, and
/// has a positive length.
pub proof fn lemma_clipped_span_is_inside(enter: int, exit: int, t_min: int, t_max: int)
    ensures
        match clipped_span(enter, exit, t_min, t_max) {
            Some((from, to)) => {
                &&& from < to || to <= 0
                &&& t_min <= from || from == 0
                &&& enter <= from || from == 0
                &&& to <= t_max
                &&& to <= exit
            },
            None => true,
        },
{
}

} // verus!
