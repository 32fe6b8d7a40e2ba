//! Geometry: what a ray can meet.

pub mod hittable;
pub mod list;
pub mod precision;
pub mod sphere;
