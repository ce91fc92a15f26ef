//! A small ray caster over exact fixed-point arithmetic.
//!
//! Every scalar is an `i64` holding a real value scaled by 2^16, so all
//! geometry (vectors, rays, sphere intersection, camera, shading) is integer
//! arithmetic with truncation, and every function's result is pinned exactly
//! by its contract.

pub mod colour;
pub mod fixed;
pub mod hittable;
pub mod pixel;
pub mod point3;
pub mod ppm;
pub mod ray;
pub mod sphere;
pub mod vec3;
pub mod world;
