//! The intersection contract shared by all geometry.

use crate::fixed::Scalar;
use crate::hit_record::{seen, HitModel, HitRecord};
use crate::ray::{Ray, RayModel};
use crate::vector::v_zero;
use vstd::prelude::*;

verus! {

/// Something a ray can meet.
pub trait Hittable {
    /// Whether the object is well formed.
    spec fn valid(&self) -> bool;

    /// The intersection that `hit` reports for `ray` within `[t_min, t_max]`.
    spec fn hit_model(&self, ray: RayModel, t_min: int, t_max: int) -> Option<HitModel>;

    /// The intersection of `ray` with the object whose parameter lies
    /// within `[t_min, t_max]`, if there is one. The ray must have a
    /// direction: one that is not zero.
    fn hit(&self, ray: &Ray, t_min: Scalar, t_max: Scalar) -> (r: Option<HitRecord>)
        requires
            self.valid(),
            ray.direction@ != v_zero(),
        ensures
            seen(r) == self.hit_model(ray@, t_min as int, t_max as int),
    ;
}

} // verus!
