//! The closed set of materials a scene can hold.

use crate::hit_record::{HitModel, HitRecord};
use crate::material::base::{Material, ScatterModel};
use crate::material::lambertian::Lambertian;
use crate::material::metal::Metal;
use crate::ray::{Ray, RayModel};
use crate::vector::{random_unit_vector, Color, Vec3, V3};
use rand::rngs::StdRng;
use vstd::prelude::*;

verus! {

/// One of the materials.
#[derive(Clone, Copy, Debug, PartialEq, Eq)]
pub enum Surface {
    Lambertian(Lambertian),
    Metal(Metal),
}

impl Material for Surface {
    open spec fn scatter_model(&self, unit: V3, ray_in: RayModel, hit: HitModel) -> Option<
        ScatterModel,
    > {
        match *self {
            Surface::Lambertian(m) => m.scatter_model(unit, ray_in, hit),
            Surface::Metal(m) => m.scatter_model(unit, ray_in, hit),
        }
    }

    fn scatter_toward(&self, unit: Vec3, ray_in: &Ray, hit: &HitRecord) -> (r: Option<
        (Ray, Color),
    >) {
        match self {
            Surface::Lambertian(m) => m.scatter_toward(unit, ray_in, hit),
            Surface::Metal(m) => m.scatter_toward(unit, ray_in, hit),
        }
    }

    fn scatter(&self, rng: &mut StdRng, ray_in: &Ray, hit: &HitRecord) -> (r: Option<
        (Ray, Color),
    >) {
        let unit = random_unit_vector(rng);
        self.scatter_toward(unit, ray_in, hit)
    }
}

} // verus!
