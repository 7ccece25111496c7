//! A Monte Carlo path tracer over fixed-point arithmetic.
//!
//! Scalars are signed 64-bit integers scaled by `SCALE` (one unit of
//! geometry is `SCALE` ticks); every arithmetic step has an exact
//! integer specification, so the whole rendering pipeline is verified
//! against the formulas it is meant to compute.

pub mod fixed;
pub mod vec3;
pub mod geometry;
pub mod random;
pub mod material;
pub mod trace;
pub mod camera;
pub mod image;
