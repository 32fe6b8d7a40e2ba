//! The scattering contract shared by all materials.

use crate::hit_record::{HitModel, HitRecord};
use crate::ray::{Ray, RayModel};
use crate::vector::{v_is_direction, v_zero, Color, Vec3, V3};
use rand::rngs::StdRng;
use vstd::prelude::*;

verus! {

/// The mathematical model of a scattered ray and its attenuation.
pub struct ScatterModel {
    pub origin: V3,
    pub direction: V3,
    pub attenuation: V3,
}

/// The model of what `scatter` returns.
pub open spec fn scatter_seen(outcome: Option<(Ray, Color)>) -> Option<ScatterModel> {
    match outcome {
        Some((ray, attenuation)) => Some(
            ScatterModel {
                origin: ray.origin@,
                direction: ray.direction@,
                attenuation: attenuation@,
            },
        ),
        None => None,
    }
}

/// A policy that turns an incoming ray and a hit into a scattered ray and
/// an attenuation, or absorbs the ray.
pub trait Material {
    /// What the material does with the ray when the random direction it
    /// draws is `unit`.
    spec fn scatter_model(&self, unit: V3, ray_in: RayModel, hit: HitModel) -> Option<ScatterModel>;

    /// Scatters `ray_in` at `hit` with `unit` as the random direction.
    fn scatter_toward(&self, unit: Vec3, ray_in: &Ray, hit: &HitRecord) -> (r: Option<
        (Ray, Color),
    >)
        requires
            ray_in.direction@ != v_zero(),
        ensures
            scatter_seen(r) == self.scatter_model(unit@, ray_in@, hit@),
            r.is_some() && hit.normal@ != v_zero() ==> r.unwrap().0.direction@ != v_zero(),
    ;

    /// Scatters `ray_in` at `hit`, drawing one random direction from `rng`.
    fn scatter(&self, rng: &mut StdRng, ray_in: &Ray, hit: &HitRecord) -> (r: Option<
        (Ray, Color),
    >)
        requires
            ray_in.direction@ != v_zero(),
        ensures
            exists|unit: V3|
                v_is_direction(unit) && scatter_seen(r) == #[trigger] self.scatter_model(
                    unit,
                    ray_in@,
                    hit@,
                ),
            r.is_some() && hit.normal@ != v_zero() ==> r.unwrap().0.direction@ != v_zero(),
    ;
}

} // verus!
