//! Rays.

use vstd::prelude::*;
use crate::vec3::{Point3, Scalar, Vec3};

verus! {

/// A ray: where it starts, where it points, and the time at which it is cast.
#[derive(Clone, Copy, Debug, PartialEq, Eq, Structural)]
pub struct Ray {
    pub origin: Point3,
    pub direction: Vec3,
    pub time: Scalar,
}

impl Ray {
    /// The ray from `origin` along `direction`, cast at time zero.
    pub fn new(origin: Point3, direction: Vec3) -> (r: Ray)
        ensures
            r == (Ray { origin, direction, time: 0 }),
    {
        Ray { origin, direction, time: 0 }
    }

    /// The ray from `origin` along `direction`, cast at `time`.
    pub fn with_time(origin: Point3, direction: Vec3, time: Scalar) -> (r: Ray)
        ensures
            r == (Ray { origin, direction, time }),
    {
        Ray { origin, direction, time }
    }

    /// Where the ray starts.
    pub fn origin(&self) -> (p: Point3)
        ensures
            p == self.origin,
    {
        self.origin
    }

    /// Where the ray points.
    pub fn direction(&self) -> (d: Vec3)
        ensures
            d == self.direction,
    {
        self.direction
    }

    /// The time at which the ray is cast.
    pub fn time(&self) -> (t: Scalar)
        ensures
            t == self.time,
    {
        self.time
    }
}

impl Default for Ray {
    /// The ray from the origin with no direction, cast at time zero.
    fn default() -> (r: Ray)
        ensures
            r == (Ray {
                origin: Vec3 { x: 0, y: 0, z: 0 },
                direction: Vec3 { x: 0, y: 0, z: 0 },
                time: 0,
            }),
    {
        Ray { origin: Vec3::new(0, 0, 0), direction: Vec3::new(0, 0, 0), time: 0 }
    }
}

} // verus!
