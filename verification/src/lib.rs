//! A Monte Carlo path tracer over exact scaled-integer arithmetic.
//!
//! Real-valued quantities (coordinates, colors, probabilities) are held as
//! `i64` values scaled by [`fixed::SCALE`]: the stored integer `n` stands for
//! the real number `n / SCALE`.  All arithmetic on them is exact integer
//! arithmetic, so every geometric and radiometric computation has a precise
//! mathematical specification.

pub mod cameras;
pub mod fixed;
pub mod hittables;
pub mod io;
pub mod materials;
pub mod ray;
pub mod renderers;
pub mod rng;
pub mod vec3;
