//! The choice between the surfaces of a capped cylinder.

use vstd::prelude::*;
use crate::interval::{in_range, within};
use crate::vec3::Scalar;

verus! {

/// A surface of a capped cylinder.
#[derive(Clone, Copy, Debug, PartialEq, Eq, Structural)]
pub enum HitSurface {
    Side,
    TopCap,
    BottomCap,
}

/// A candidate for a hit: `None` for no hit, else its ray parameter.
pub open spec fn beats(t: Scalar, other: Option<Scalar>) -> bool {
    match other {
        Some(o) => t < o,
        None => true,
    }
}

/// `t` is no farther than `other`, if there is one.
pub open spec fn ties_or_beats(t: Scalar, other: Option<Scalar>) -> bool {
    match other {
        Some(o) => t <= o,
        None => true,
    }
}

/// The nearest of the hits with the top cap, the bottom cap and the side.
/// Of hits that are equally near, the top cap comes before the bottom cap,
/// and both before the side.
pub open spec fn nearest_of(top: Option<Scalar>, bottom: Option<Scalar>, side: Option<Scalar>)
    -> Option<(Scalar, HitSurface)> {
    if top.is_some() && ties_or_beats(top.unwrap(), bottom) && ties_or_beats(top.unwrap(), side) {
        Some((top.unwrap(), HitSurface::TopCap))
    } else if bottom.is_some() && ties_or_beats(bottom.unwrap(), side) && beats(
        bottom.unwrap(),
        top,
    ) {
        Some((bottom.unwrap(), HitSurface::BottomCap))
    } else if side.is_some() {
        Some((side.unwrap(), HitSurface::Side))
    } else {
        None
    }
}

/// The nearest of the hits with the three surfaces of a cylinder, and the
/// surface it lies on.
pub fn nearest_surface(top: Option<Scalar>, bottom: Option<Scalar>, side: Option<Scalar>) -> (best:
    Option<(Scalar, HitSurface)>)
    ensures
        best == nearest_of(top, bottom, side),
{
    let mut best: Option<(Scalar, HitSurface)> = None;
    if let Some(t) = top {
        best = Some((t, HitSurface::TopCap));
    }
    if let Some(t) = bottom {
        match best {
            Some((b, _)) => {
                if t < b {
                    best = Some((t, HitSurface::BottomCap));
                }
            },
            None => {
                best = Some((t, HitSurface::BottomCap));
            },
        }
    }
    if let Some(t) = side {
        match best {
            Some((b, _)) => {
                if t < b {
                    best = Some((t, HitSurface::Side));
                }
            },
            None => {
                best = Some((t, HitSurface::Side));
            },
        }
    }
    best
}

/// The nearest surface is one that is hit, and none that is hit is nearer;
/// there is none only if no surface is hit.
pub proof fn lemma_nearest_is_least(
    top: Option<Scalar>,
    bottom: Option<Scalar>,
    side: Option<Scalar>,
)
    ensures
        match nearest_of(top, bottom, side) {
            Some((t, surface)) => {
                &&& ties_or_beats(t, top)
                &&& ties_or_beats(t, bottom)
                &&& ties_or_beats(t, side)
                &&& match surface {
                    HitSurface::TopCap => top == Some(t),
                    HitSurface::BottomCap => bottom == Some(t),
                    HitSurface::Side => side == Some(t),
                }
            },
            None => top.is_none() && bottom.is_none() && side.is_none(),
        },
{
}

/// The root that counts as the hit with the side of a cylinder, of the two
/// roots `first` and `second` of the ray's equation, given for each whether
/// the ray is between the caps there: the smaller root if it lies in
/// `[t_min, t_max]` between the caps, else the larger one if that does, else
/// none.
pub open spec fn chosen_side_root(
    first: Scalar,
    first_between_caps: bool,
    second: Scalar,
    second_between_caps: bool,
    t_min: Scalar,
    t_max: Scalar,
) -> Option<Scalar> {
    let (near, near_ok, far, far_ok) = if first > second {
        (second, second_between_caps, first, first_between_caps)
    } else {
        (first, first_between_caps, second, second_between_caps)
    };
    if in_range(near as int, t_min as int, t_max as int) && near_ok {
        Some(near)
    } else if in_range(far as int, t_min as int, t_max as int) && far_ok {
        Some(far)
    } else {
        None
    }
}

/// The root that counts as the hit of a ray with the side of a cylinder.
pub fn try_side_hit(
    first: Scalar,
    first_between_caps: bool,
    second: Scalar,
    second_between_caps: bool,
    t_min: Scalar,
    t_max: Scalar,
) -> (root: Option<Scalar>)
    ensures
        root == chosen_side_root(
            first,
            first_between_caps,
            second,
            second_between_caps,
            t_min,
            t_max,
        ),
{
    let mut t0 = first;
    let mut ok0 = first_between_caps;
    let mut t1 = second;
    let mut ok1 = second_between_caps;
    if t0 > t1 {
        t0 = second;
        ok0 = second_between_caps;
        t1 = first;
        ok1 = first_between_caps;
    }
    if within(t0, t_min, t_max) && ok0 {
        return Some(t0);
    }
    if within(t1, t_min, t_max) && ok1 {
        return Some(t1);
    }
    None
}

/// The hit with a cap of a cylinder, for a ray that meets the plane of the
/// cap at `t`, given whether it does so within the radius: `t` if it lies in
/// `[t_min, t_max]` and within the radius, else none.
pub fn try_cap_hit(t: Scalar, within_radius: bool, t_min: Scalar, t_max: Scalar) -> (hit: Option<
    Scalar,
>)
    ensures
        hit == if in_range(t as int, t_min as int, t_max as int) && within_radius {
            Some(t)
        } else {
            None
        },
{
    if !within(t, t_min, t_max) {
        return None;
    }
    if !within_radius {
        return None;
    }
    Some(t)
}

} // verus!
