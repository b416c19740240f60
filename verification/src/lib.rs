//! A small software ray tracer over saturating fixed-point arithmetic.
//!
//! Every scalar quantity is an `i64` counting micro-units: the value `v`
//! stands for the real number `v / 1_000_000`. All arithmetic saturates at
//! the `i64` range instead of overflowing, and division by zero is a guarded
//! no-op that yields zero, so the whole rendering pipeline is total and
//! panic-free.

pub mod canvas;
pub mod color;
pub mod fixed;
pub mod intersect;
pub mod lighting;
pub mod projection;
pub mod render;
pub mod scene;
pub mod trace;
pub mod vec3;
