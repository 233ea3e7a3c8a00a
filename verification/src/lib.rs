//! An offline Monte Carlo path tracer over fixed-point arithmetic.
//!
//! Every geometric quantity is a real number held as an `i64` scaled by
//! `num::FP_ONE`, so each operation of the kernel has an exact integer
//! contract: camera ray generation, sphere intersection, the bounded
//! bounce loop that accumulates radiance, and the gamma-corrected
//! conversion of accumulated radiance into 8-bit colour channels.

pub mod num;
pub mod vec3;
pub mod rng;
pub mod ray;
pub mod objects;
pub mod camera;
pub mod scene;
