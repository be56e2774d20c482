//! The exact core of a path tracer: everything the renderer decides by
//! comparing, selecting, sorting and indexing, stated and proved over integers.
//!
//! Positions, ray parameters and times enter the library as [`vec3::Scalar`]
//! keys: 64-bit integers that are ordered as the quantities they stand for,
//! with the key 0 for the number zero. The library never does arithmetic on a
//! key; it only compares keys, with one another and with 0, and hands them
//! back. So every result is exact for every encoding that keeps the order and
//! gives zero the key 0.
//!
//! The heart of the library is the bounding volume hierarchy of [`bvh`] and
//! the list of [`hittable_list`], both over any shapes that implement
//! [`hittable::Hittable`]. What each of them answers is stated for every
//! implementation; for shapes that answer steadily it is proved that both
//! find the closest hit, and so that the hierarchy finds what a plain scan of
//! all shapes finds. Around them stand the smaller decisions of the renderer:
//! which root of a sphere counts, which surface of a cylinder is hit first,
//! what is left of a ray inside a medium, what becomes of a ray on a bounce,
//! which gradient belongs to a point of the noise lattice.

pub mod vec3;
pub mod interval;
pub mod aabb;
pub mod ray;
pub mod hittable;
pub mod hittable_list;
pub mod random;
pub mod bvh;
pub mod texture;
pub mod pdf;
pub mod material;
pub mod perlin;
pub mod sphere;
pub mod cylinder;
pub mod constant_medium;
pub mod aarect;
pub mod cuboid;
pub mod integrator;
pub mod compare;
pub mod render;
