//! A small ray-tracing library over fixed-point arithmetic.
//!
//! Rays are cast through a camera viewport into a scene of hittable shapes;
//! the nearest intersection drives a depth-limited diffuse shading recursion,
//! and the accumulated colour is gamma-corrected, quantized to 8-bit channels
//! and formatted as lines of a plain-text portable pixel map.

pub mod camera;
pub mod colour;
pub mod fixed;
pub mod hit;
pub mod interval;
pub mod ray;
pub mod rng;
pub mod shape;
pub mod vec3;

use vstd::prelude::*;

verus! {

} // verus!
