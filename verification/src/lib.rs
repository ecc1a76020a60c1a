//! The decision core of a Monte Carlo path tracer.
//!
//! Everything here works on binary64 numbers held as their encodings
//! (`scalar::Scalar`): bounding boxes and their unions, the slab test, the
//! choice of an intersection root, closest-hit search over a flat list and
//! over a bounding-volume hierarchy, the construction of that hierarchy, the
//! branch taken by each material, the lattice of the noise generator and the
//! bytes of a pixel. Comparing, negating and choosing are exact on the
//! encodings and are done here; the arithmetic that produces the numbers is
//! left to the caller.
pub mod scalar;
pub mod utility;
pub mod vec3;
pub mod aabb;
pub mod sphere;
pub mod hittable;
pub mod bvh;
pub mod split;
pub mod construct;
pub mod closest;
pub mod traversal;
pub mod ray;
pub mod material;
pub mod texture;
pub mod perlin;
