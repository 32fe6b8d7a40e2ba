//! Rays: half-lines through the scene.

use crate::fixed::Scalar;
use crate::vector::{v_add, v_scale, Point3, Vec3, V3};
use vstd::prelude::*;

verus! {

/// A half-line from `origin` along `direction`, which need not have unit
/// length.
#[derive(Clone, Copy, PartialEq, Eq, Debug, Structural)]
pub struct Ray {
    pub origin: Point3,
    pub direction: Vec3,
}

/// The mathematical model of a ray.
pub struct RayModel {
    pub origin: V3,
    pub direction: V3,
}

impl View for Ray {
    type V = RayModel;

    open spec fn view(&self) -> RayModel {
        RayModel { origin: self.origin@, direction: self.direction@ }
    }
}

/// The point `origin + t * direction`.
pub open spec fn ray_at(origin: V3, direction: V3, t: int) -> V3 {
    v_add(origin, v_scale(direction, t))
}

impl Ray {
    /// The ray from `origin` along `direction`.
    pub fn new(origin: Point3, direction: Vec3) -> (r: Self)
        ensures
            r@ == (RayModel { origin: origin@, direction: direction@ }),
    {
        Ray { origin, direction }
    }

    /// The point at parameter `t`, which may be negative.
    pub fn at(&self, t: Scalar) -> (r: Point3)
        ensures
            r@ == ray_at(self.origin@, self.direction@, t as int),
    {
        self.origin.add(self.direction.scale(t))
    }
}

} // verus!
