//! Distributions of directions.

use vstd::prelude::*;
use crate::random::random_side;
use crate::vec3::{Point3, Scalar, Vec3};

verus! {

/// The cosine-weighted distribution over the hemisphere around `w`.
#[derive(Clone, Copy, Debug, PartialEq, Eq, Structural)]
pub struct CosinePdf {
    pub w: Vec3,
}

impl CosinePdf {
    /// The distribution around the direction `w`.
    pub fn new(w: Vec3) -> (pdf: CosinePdf)
        ensures
            pdf.w == w,
    {
        CosinePdf { w }
    }

    /// The density of the distribution at a direction, given the cosine of
    /// the angle between the direction and `w` and the density that belongs
    /// to it: zero unless the direction lies above the surface.
    pub fn value(cosine: Scalar, density: Scalar) -> (d: Scalar)
        ensures
            d == if cosine <= 0 {
                0
            } else {
                density
            },
    {
        if cosine <= 0 {
            0
        } else {
            density
        }
    }
}

/// The distribution of the directions from `origin` towards a shape of the
/// scene, named by its handle.
#[derive(Clone, Copy, Debug, PartialEq, Eq, Structural)]
pub struct HittablePdf {
    pub origin: Point3,
    pub ptr: usize,
}

impl HittablePdf {
    /// The distribution of the directions from `origin` towards `ptr`.
    pub fn new(ptr: usize, origin: Point3) -> (pdf: HittablePdf)
        ensures
            pdf.ptr == ptr,
            pdf.origin == origin,
    {
        HittablePdf { origin, ptr }
    }
}

/// An even mixture of two distributions.
pub struct MixturePdf<A, B> {
    pub first: A,
    pub second: B,
}

/// One of the two parts of a mixture.
#[derive(Clone, Copy, Debug, PartialEq, Eq, Structural)]
pub enum Part {
    First,
    Second,
}

impl<A, B> MixturePdf<A, B> {
    /// The even mixture of `first` and `second`.
    pub fn new(first: A, second: B) -> (pdf: MixturePdf<A, B>)
        ensures
            pdf.first == first,
            pdf.second == second,
    {
        MixturePdf { first, second }
    }

    /// The part from which the next direction is drawn: one of the two, by
    /// the toss of a fair coin.
    pub fn choose_part(&self) -> (part: Part) {
        part_for(random_side())
    }
}

/// The part that a toss of the coin picks: the first for heads, the second
/// for tails.
pub fn part_for(heads: bool) -> (part: Part)
    ensures
        part == if heads {
            Part::First
        } else {
            Part::Second
        },
{
    if heads {
        Part::First
    } else {
        Part::Second
    }
}

} // verus!
