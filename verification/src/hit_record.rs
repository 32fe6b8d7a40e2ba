//! The record of an intersection between a ray and a surface.

use crate::fixed::{Scalar, LIMIT};
use crate::ray::Ray;
use crate::vector::{lemma_dot_commutes, lemma_dot_negated, v_dot, v_neg, v_zero, Point3, Vec3, V3};
use vstd::prelude::*;

verus! {

/// Where a ray met a surface: the ray parameter, the point, the surface
/// normal turned against the ray, and the index of the surface's material
/// in the scene's table.
#[derive(Clone, Copy, Debug, PartialEq, Eq)]
pub struct HitRecord {
    pub t: Scalar,
    pub point: Point3,
    pub normal: Vec3,
    pub material: Option<usize>,
}

/// The mathematical model of a hit record.
pub struct HitModel {
    pub t: int,
    pub point: V3,
    pub normal: V3,
    pub material: Option<usize>,
}

impl View for HitRecord {
    type V = HitModel;

    open spec fn view(&self) -> HitModel {
        HitModel {
            t: self.t as int,
            point: self.point@,
            normal: self.normal@,
            material: self.material,
        }
    }
}

/// The model of an optional hit record.
pub open spec fn seen(hit: Option<HitRecord>) -> Option<HitModel> {
    match hit {
        Some(record) => Some(record@),
        None => None,
    }
}

/// The outward normal turned against the ray: kept where the ray meets the
/// surface from outside, negated where it meets it from inside or grazes.
pub open spec fn face_normal(direction: V3, outward: V3) -> V3 {
    if v_dot(direction, outward) < 0 {
        outward
    } else {
        v_neg(outward)
    }
}

/// A normal turned against the ray never points along it, as long as the
/// outward normal holds no `i64::MIN`.
pub proof fn lemma_face_normal_opposes(direction: V3, outward: V3)
    requires
        -LIMIT <= outward.x <= LIMIT,
        -LIMIT <= outward.y <= LIMIT,
        -LIMIT <= outward.z <= LIMIT,
    ensures
        v_dot(face_normal(direction, outward), direction) <= 0,
{
    lemma_dot_commutes(direction, outward);
    lemma_dot_negated(outward, direction);
}

impl HitRecord {
    /// A record at the origin with no normal and no material.
    pub fn new() -> (r: Self)
        ensures
            r@ == (HitModel { t: 0, point: v_zero(), normal: v_zero(), material: None }),
    {
        HitRecord { point: Vec3::default(), normal: Vec3::default(), t: 0, material: None }
    }

    /// Sets the normal to `outward_normal` turned against `ray`.
    pub fn set_face_normal(&mut self, ray: &Ray, outward_normal: Vec3)
        ensures
            final(self)@ == (HitModel {
                normal: face_normal(ray.direction@, outward_normal@),
                ..old(self)@
            }),
    {
        let front_face = ray.direction.dot(outward_normal) < 0;
        self.normal = if front_face {
            outward_normal
        } else {
            outward_normal.neg()
        };
    }

    /// Overwrites every field with that of `other`, which must name a
    /// material.
    pub fn update(&mut self, other: &HitRecord)
        requires
            other.material.is_some(),
        ensures
            final(self)@ == other@,
    {
        self.t = other.t;
        self.point = other.point;
        self.normal = other.normal;
        self.material = other.material;
    }
}

} // verus!
