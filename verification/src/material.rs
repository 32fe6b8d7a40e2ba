//! Materials: how a surface scatters the light that reaches it.

pub mod base;
pub mod lambertian;
pub mod metal;
pub mod surface;
