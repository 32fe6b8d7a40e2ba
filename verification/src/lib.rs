//! A stochastic path tracer's light-transport core over saturating
//! fixed-point arithmetic.
//!
//! Every quantity is a signed 64-bit count of billionths. The arithmetic
//! never overflows: a result too large to represent is held at the largest
//! representable magnitude.

pub mod fixed;
pub mod hit_record;
pub mod material;
pub mod objects;
pub mod output;
pub mod ray;
pub mod text;
pub mod tracer;
pub mod utils;
pub mod vector;
