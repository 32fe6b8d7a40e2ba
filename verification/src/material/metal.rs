//! Mirror-like surfaces.

use crate::fixed::Scalar;
use crate::hit_record::{HitModel, HitRecord};
use crate::material::base::{Material, ScatterModel};
use crate::ray::{Ray, RayModel};
use crate::vector::{
    random_unit_vector, reflect, v_add, v_dot, v_reflect, v_scale, v_unit, Color, Vec3,
    V3,
};
use rand::rngs::StdRng;
use vstd::prelude::*;

verus! {

/// A reflecting surface with per-channel reflectance `albedo`. `fuzz`
/// blurs the reflection: 0 is a perfect mirror, `ONE` the roughest. It is
/// used as given, not clamped.
#[derive(Clone, Copy, Debug, PartialEq, Eq)]
pub struct Metal {
    pub albedo: Color,
    pub fuzz: Scalar,
}

/// The direction a metal scatters to: the incoming unit direction mirrored
/// about the normal, plus `fuzz` times the random direction.
pub open spec fn metal_direction(incoming: V3, normal: V3, fuzz: int, unit: V3) -> V3 {
    v_add(v_reflect(v_unit(incoming), normal), v_scale(unit, fuzz))
}

/// A perfect mirror scatters exactly to the mirror image of the incoming
/// unit direction, whatever random direction is drawn.
pub proof fn lemma_mirror_reflects(incoming: V3, normal: V3, unit: V3)
    ensures
        metal_direction(incoming, normal, 0, unit) == v_reflect(v_unit(incoming), normal),
{
    assert(unit.x * 0 == 0 && unit.y * 0 == 0 && unit.z * 0 == 0);
}

impl Material for Metal {
    open spec fn scatter_model(&self, unit: V3, ray_in: RayModel, hit: HitModel) -> Option<
        ScatterModel,
    > {
        let direction = metal_direction(ray_in.direction, hit.normal, self.fuzz as int, unit);
        if v_dot(direction, hit.normal) > 0 {
            Some(ScatterModel { origin: hit.point, direction, attenuation: self.albedo@ })
        } else {
            None
        }
    }

    fn scatter_toward(&self, unit: Vec3, ray_in: &Ray, hit: &HitRecord) -> (r: Option<
        (Ray, Color),
    >)
        ensures
            self.fuzz == 0 && r.is_some() ==> r.unwrap().0.direction@ == v_reflect(
                v_unit(ray_in.direction@),
                hit.normal@,
            ),
    {
        let reflected = reflect(ray_in.direction.unit_vector(), hit.normal);
        let scattered = Ray::new(hit.point, reflected.add(unit.scale(self.fuzz)));
        proof {
            lemma_mirror_reflects(ray_in.direction@, hit.normal@, unit@);
            // the zero vector has a zero dot product, so what scatters is not zero
            assert(0 * hit.normal@.x == 0 && 0 * hit.normal@.y == 0 && 0 * hit.normal@.z == 0);
        }
        if scattered.direction.dot(hit.normal) > 0 {
            Some((scattered, self.albedo))
        } else {
            None
        }
    }

    fn scatter(&self, rng: &mut StdRng, ray_in: &Ray, hit: &HitRecord) -> (r: Option<
        (Ray, Color),
    >)
        ensures
            self.fuzz == 0 && r.is_some() ==> r.unwrap().0.direction@ == v_reflect(
                v_unit(ray_in.direction@),
                hit.normal@,
            ),
    {
        let unit = random_unit_vector(rng);
        self.scatter_toward(unit, ray_in, hit)
    }
}

} // verus!
