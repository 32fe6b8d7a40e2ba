//! Diffuse surfaces.

use crate::hit_record::{HitModel, HitRecord};
use crate::material::base::{Material, ScatterModel};
use crate::ray::{Ray, RayModel};
use crate::vector::{random_unit_vector, v_add, v_near_zero, Color, Vec3, V3};
use rand::rngs::StdRng;
use vstd::prelude::*;

verus! {

/// A diffuse surface that reflects the fraction `albedo` of each channel.
#[derive(Clone, Copy, Debug, PartialEq, Eq)]
pub struct Lambertian {
    pub albedo: Color,
}

/// The direction a diffuse surface scatters to: the normal plus the random
/// direction, or the bare normal where the two nearly cancel.
pub open spec fn diffuse_direction(normal: V3, unit: V3) -> V3 {
    let sum = v_add(normal, unit);
    if v_near_zero(sum) {
        normal
    } else {
        sum
    }
}

impl Material for Lambertian {
    open spec fn scatter_model(&self, unit: V3, ray_in: RayModel, hit: HitModel) -> Option<
        ScatterModel,
    > {
        Some(
            ScatterModel {
                origin: hit.point,
                direction: diffuse_direction(hit.normal, unit),
                attenuation: self.albedo@,
            },
        )
    }

    fn scatter_toward(&self, unit: Vec3, ray_in: &Ray, hit: &HitRecord) -> (r: Option<
        (Ray, Color),
    >)
        ensures
            r.is_some(),
    {
        let scatter_direction = hit.normal.add(unit);
        let scatter_direction = if scatter_direction.near_zero() {
            hit.normal
        } else {
            scatter_direction
        };
        let scattered = Ray::new(hit.point, scatter_direction);
        Some((scattered, self.albedo))
    }

    fn scatter(&self, rng: &mut StdRng, ray_in: &Ray, hit: &HitRecord) -> (r: Option<
        (Ray, Color),
    >)
        ensures
            r.is_some(),
    {
        let unit = random_unit_vector(rng);
        self.scatter_toward(unit, ray_in, hit)
    }
}

} // verus!
