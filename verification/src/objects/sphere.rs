//! Spheres.
//!
//! A ray is met by following its unit direction: with `oc` the offset of
//! the origin from the centre, the ray passes the centre at the distance
//! `|oc x u|` and meets the sphere where the distance along `u` is
//! `-(oc . u) -+ sqrt(radius^2 - |oc x u|^2)`. Dividing by the length of
//! the direction gives the parameter. Sums of products are taken without
//! rounding, so neither a short direction nor a small radius is lost.

use crate::fixed::{
    floor_sqrt, isqrt, lemma_floor_sqrt, lemma_over_monotone, lemma_tdiv_monotone, magnitude,
    over, sat, saturate, spec_over, tdiv, Scalar, LIMIT, ONE,
};
use crate::hit_record::{face_normal, lemma_face_normal_opposes, HitModel, HitRecord};
use crate::objects::hittable::Hittable;
use crate::objects::precision::{
    distance_slack, lemma_hit_normal_length, lemma_hit_point_distance, normal_slack,
    within_reach, REACH,
};
use crate::ray::{ray_at, Ray, RayModel};
use crate::vector::{
    lemma_dot_negated, lemma_unit_vector_bounds, v_div, v_dot, v_fits, v_length, v_neg,
    v_norm_squared, v_sub, v_unit, v_zero, Point3, Vec3, V3,
};
use vstd::prelude::*;

verus! {

/// A sphere with a positive radius; `material` is the index of its
/// material in the scene's table.
#[derive(Clone, Copy, Debug, PartialEq, Eq)]
pub struct Sphere {
    pub center: Point3,
    pub radius: Scalar,
    pub material: usize,
}

/// The sum of the products of the components, with no rounding: a count
/// of `ONE^-2`.
pub open spec fn dot_exact(a: V3, b: V3) -> int {
    a.x * b.x + a.y * b.y + a.z * b.z
}

/// The cross product: each component is the exact difference of two
/// products, rounded toward zero once and held within range.
pub open spec fn across(a: V3, b: V3) -> V3 {
    V3 {
        x: sat(tdiv(a.y * b.z - a.z * b.y, ONE as int)),
        y: sat(tdiv(a.z * b.x - a.x * b.z, ONE as int)),
        z: sat(tdiv(a.x * b.y - a.y * b.x, ONE as int)),
    }
}

/// How a ray approaches a sphere, measured along the unit direction `u`
/// of the ray.
pub struct Approach {
    /// `oc . u`, exact: minus the distance along `u` at which the ray
    /// passes the centre, as a count of `ONE^-2`.
    pub along: int,
    /// `|oc x u|^2`: the square of the distance at which the ray passes
    /// the centre.
    pub aside: int,
    /// `|u|^2`, exact, which is `ONE^2` to within rounding.
    pub unit_squared: int,
    /// The radius times the length of `u`.
    pub reach: int,
    /// The length of the direction, by which a distance along `u` is
    /// divided to give the ray's parameter.
    pub scale: int,
}

/// The approach of the ray from `origin` along `direction` to the sphere
/// about `center` with the given radius.
pub open spec fn approach(origin: V3, direction: V3, center: V3, radius: int) -> Approach {
    let oc = v_sub(origin, center);
    let u = v_unit(direction);
    Approach {
        along: dot_exact(oc, u),
        aside: v_norm_squared(across(oc, u)),
        unit_squared: v_norm_squared(u),
        reach: sat(tdiv(radius * floor_sqrt(v_norm_squared(u)), ONE as int)),
        scale: v_length(direction),
    }
}

/// `reach^2 - aside`: the square of half the length of the chord that the
/// sphere cuts from the ray, negative where the ray passes the sphere by.
pub open spec fn half_chord_squared(q: Approach) -> int {
    q.reach * q.reach - q.aside
}

/// The distance along the unit direction to the nearer meeting point,
/// `-(oc . u) - sqrt(half_chord_squared)`.
pub open spec fn near_distance(q: Approach) -> int {
    sat(tdiv(ONE * (-q.along - ONE * floor_sqrt(half_chord_squared(q))), q.unit_squared))
}

/// The distance along the unit direction to the farther meeting point,
/// `-(oc . u) + sqrt(half_chord_squared)`.
pub open spec fn far_distance(q: Approach) -> int {
    sat(tdiv(ONE * (-q.along + ONE * floor_sqrt(half_chord_squared(q))), q.unit_squared))
}

/// The smaller root: the nearer distance divided by the length of the
/// direction.
pub open spec fn near_root(q: Approach) -> int {
    spec_over(near_distance(q), q.scale)
}

/// The larger root: the farther distance divided by the length of the
/// direction.
pub open spec fn far_root(q: Approach) -> int {
    spec_over(far_distance(q), q.scale)
}

/// The root that counts as the intersection: the smaller one if it lies
/// within `[t_min, t_max]`, else the larger one if that does. There is
/// none where the ray passes the sphere by.
pub open spec fn chosen_root(q: Approach, t_min: int, t_max: int) -> Option<int> {
    if half_chord_squared(q) < 0 {
        None
    } else if t_min <= near_root(q) <= t_max {
        Some(near_root(q))
    } else if t_min <= far_root(q) <= t_max {
        Some(far_root(q))
    } else {
        None
    }
}

/// The normal at a point whose offset from the centre, divided by the
/// radius, is `outward`: `outward` turned against the ray.
///
/// It is kept where its dot product with the direction is negative and
/// negated where that is positive. Where the product rounds to zero, as it
/// does for a very short direction, the unit direction decides in the
/// same way. Where the point falls on the centre to within the
/// resolution, the sphere is met head-on and the normal is the reversed
/// unit direction.
pub open spec fn surface_normal(direction: V3, outward: V3) -> V3 {
    if outward == v_zero() {
        v_neg(v_unit(direction))
    } else if v_dot(direction, outward) == 0 {
        face_normal(v_unit(direction), outward)
    } else {
        face_normal(direction, outward)
    }
}

/// The intersection of a ray with a sphere within `[t_min, t_max]`: the
/// chosen root, the point there, the outward normal
/// `(point - center) / radius` turned against the ray, and the sphere's
/// material.
#[verifier::opaque]
pub open spec fn sphere_hit(sphere: Sphere, ray: RayModel, t_min: int, t_max: int) -> Option<
    HitModel,
> {
    let q = approach(ray.origin, ray.direction, sphere.center@, sphere.radius as int);
    match chosen_root(q, t_min, t_max) {
        None => None,
        Some(t) => {
            let point = ray_at(ray.origin, ray.direction, t);
            let outward = v_div(v_sub(point, sphere.center@), sphere.radius as int);
            Some(
                HitModel {
                    t,
                    point,
                    normal: surface_normal(ray.direction, outward),
                    material: Some(sphere.material),
                },
            )
        },
    }
}

/// Whether a hit was computed with nothing held at the limit: the radius,
/// the centre, the origin and the direction of the ray lie within
/// `REACH`, and the parameter is below `LIMIT` in magnitude.
pub open spec fn computed_in_reach(sphere: Sphere, ray: RayModel, hit: HitModel) -> bool {
    &&& sphere.radius <= REACH
    &&& within_reach(sphere.center@)
    &&& within_reach(ray.origin)
    &&& within_reach(ray.direction)
    &&& -LIMIT < hit.t < LIMIT
}

/// Whether the normal of a hit comes from the point: the point does not
/// fall on the centre, and no component of the normal is held at the
/// limit.
pub open spec fn normal_in_reach(sphere: Sphere, hit: HitModel) -> bool {
    &&& v_div(v_sub(hit.point, sphere.center@), sphere.radius as int) != v_zero()
    &&& -LIMIT < hit.normal.x < LIMIT
    &&& -LIMIT < hit.normal.y < LIMIT
    &&& -LIMIT < hit.normal.z < LIMIT
}

/// A hit kept only where its parameter does not exceed `bound`.
pub open spec fn no_farther_than(hit: Option<HitModel>, bound: int) -> Option<HitModel> {
    match hit {
        Some(h) => if h.t <= bound {
            hit
        } else {
            None
        },
        None => None,
    }
}

/// The smaller root does not exceed the larger one.
pub proof fn lemma_roots_ordered(q: Approach)
    requires
        q.unit_squared > 0,
        q.scale > 0,
        half_chord_squared(q) >= 0,
    ensures
        near_root(q) <= far_root(q),
{
    lemma_floor_sqrt(half_chord_squared(q));
    let s = floor_sqrt(half_chord_squared(q));
    lemma_tdiv_monotone(ONE * (-q.along - ONE * s), ONE * (-q.along + ONE * s), q.unit_squared);
    lemma_over_monotone(near_distance(q), far_distance(q), q.scale);
}

/// The unit direction of a ray is not zero, and the direction has a
/// length.
pub proof fn lemma_approach_is_sound(origin: V3, direction: V3, center: V3, radius: int)
    requires
        direction != v_zero(),
        v_fits(direction),
    ensures
        approach(origin, direction, center, radius).unit_squared > 0,
        approach(origin, direction, center, radius).scale > 0,
{
    lemma_unit_vector_bounds(direction);
    let u = v_unit(direction);
    assert(u.x * u.x >= 0 && u.y * u.y >= 0 && u.z * u.z >= 0 && (u.x != 0 ==> u.x * u.x > 0) && (
    u.y != 0 ==> u.y * u.y > 0) && (u.z != 0 ==> u.z * u.z > 0)) by (nonlinear_arith);
}

/// Lowering the upper bound of the interval only removes hits: within
/// `[t_min, bound]` a sphere reports the hit it reports within
/// `[t_min, t_max]` if that lies no farther than `bound`, and none
/// otherwise.
pub proof fn lemma_hit_restricts(
    sphere: Sphere,
    ray: RayModel,
    t_min: int,
    t_max: int,
    bound: int,
)
    requires
        bound <= t_max,
        ray.direction != v_zero(),
        v_fits(ray.direction),
    ensures
        sphere_hit(sphere, ray, t_min, bound) == no_farther_than(
            sphere_hit(sphere, ray, t_min, t_max),
            bound,
        ),
{
    reveal(sphere_hit);
    let q = approach(ray.origin, ray.direction, sphere.center@, sphere.radius as int);
    lemma_approach_is_sound(ray.origin, ray.direction, sphere.center@, sphere.radius as int);
    if half_chord_squared(q) >= 0 {
        lemma_roots_ordered(q);
    }
}

/// The reversed unit direction does not point along the ray.
pub proof fn lemma_head_on_normal_opposes(direction: V3)
    requires
        direction != v_zero(),
        v_fits(direction),
    ensures
        v_dot(v_neg(v_unit(direction)), direction) <= 0,
        v_neg(v_unit(direction)) != v_zero(),
{
    lemma_unit_vector_bounds(direction);
    let u = v_unit(direction);
    lemma_dot_negated(u, direction);
    vstd::arithmetic::div_mod::lemma_div_pos_is_pos(u.x * direction.x, ONE as int);
    vstd::arithmetic::div_mod::lemma_div_pos_is_pos(u.y * direction.y, ONE as int);
    vstd::arithmetic::div_mod::lemma_div_pos_is_pos(u.z * direction.z, ONE as int);
}

/// Every reported hit lies within the interval, its normal is not zero
/// and does not point along the ray, and it names the sphere's material.
pub proof fn lemma_hit_faces_ray(sphere: Sphere, ray: RayModel, t_min: int, t_max: int)
    requires
        ray.direction != v_zero(),
        v_fits(ray.direction),
    ensures
        sphere_hit(sphere, ray, t_min, t_max) matches Some(hit) ==> {
            &&& t_min <= hit.t <= t_max
            &&& v_dot(hit.normal, ray.direction) <= 0
            &&& hit.normal != v_zero()
            &&& hit.material == Some(sphere.material)
        },
{
    reveal(sphere_hit);
    let q = approach(ray.origin, ray.direction, sphere.center@, sphere.radius as int);
    if let Some(t) = chosen_root(q, t_min, t_max) {
        let point = ray_at(ray.origin, ray.direction, t);
        let outward = v_div(v_sub(point, sphere.center@), sphere.radius as int);
        lemma_face_normal_opposes(ray.direction, outward);
        lemma_head_on_normal_opposes(ray.direction);
        crate::vector::lemma_dot_commutes(ray.direction, outward);
        lemma_dot_negated(outward, ray.direction);
    }
}

/// The exact product of a scalar and a component of a unit vector.
fn unit_product(a: Scalar, b: Scalar) -> (r: i128)
    requires
        -ONE <= b <= ONE,
    ensures
        r == a * b,
        -9_223_372_036_854_775_808 * 1_000_000_000 <= r <= 9_223_372_036_854_775_808
            * 1_000_000_000,
{
    let wa: i128 = a as i128;
    let wb: i128 = b as i128;
    assert(-(9_223_372_036_854_775_808 * 1_000_000_000) <= wa * wb <= 9_223_372_036_854_775_808
        * 1_000_000_000) by (nonlinear_arith)
        requires
            -9_223_372_036_854_775_808 <= wa <= 9_223_372_036_854_775_808,
            -1_000_000_000 <= wb <= 1_000_000_000,
    ;
    wa * wb
}

/// The cross product of an offset and a unit vector.
fn offset_across(oc: Vec3, u: Vec3) -> (r: Vec3)
    requires
        -ONE <= u@.x <= ONE,
        -ONE <= u@.y <= ONE,
        -ONE <= u@.z <= ONE,
    ensures
        r@ == across(oc@, u@),
{
    let x: i128 = unit_product(oc.y, u.z) - unit_product(oc.z, u.y);
    let y: i128 = unit_product(oc.z, u.x) - unit_product(oc.x, u.z);
    let z: i128 = unit_product(oc.x, u.y) - unit_product(oc.y, u.x);
    Vec3 {
        x: saturate(x / 1_000_000_000),
        y: saturate(y / 1_000_000_000),
        z: saturate(z / 1_000_000_000),
    }
}

/// The distance along the unit direction for the numerator
/// `-(oc . u) -+ ONE sqrt(half_chord_squared)`.
fn distance_along(numerator: i128, unit_squared: i128) -> (r: Scalar)
    requires
        -50_000_000_000_000_000_000_000_000_000 <= numerator
            <= 50_000_000_000_000_000_000_000_000_000,
        unit_squared > 0,
    ensures
        r == sat(tdiv(ONE * numerator, unit_squared as int)),
{
    let scaled: i128 = 1_000_000_000 * numerator;
    saturate(scaled / unit_squared)
}

impl Hittable for Sphere {
    open spec fn valid(&self) -> bool {
        self.radius > 0
    }

    open spec fn hit_model(&self, ray: RayModel, t_min: int, t_max: int) -> Option<HitModel> {
        sphere_hit(*self, ray, t_min, t_max)
    }

    fn hit(&self, ray: &Ray, t_min: Scalar, t_max: Scalar) -> (r: Option<HitRecord>)
        ensures
            r matches Some(record) ==> {
                &&& t_min <= record.t <= t_max
                &&& v_dot(record.normal@, ray.direction@) <= 0
                &&& record.normal@ != v_zero()
                &&& record.material == Some(self.material)
            },
            r matches Some(record) ==> (computed_in_reach(*self, ray@, record@) ==> magnitude(
                v_length(v_sub(record.point@, self.center@)) - self.radius,
            ) <= distance_slack(self.radius as int, record.t as int, v_length(ray.direction@))),
            r matches Some(record) ==> (computed_in_reach(*self, ray@, record@) && normal_in_reach(
                *self,
                record@,
            ) ==> magnitude(v_length(record.normal@) - ONE) <= normal_slack(
                self.radius as int,
                distance_slack(self.radius as int, record.t as int, v_length(ray.direction@)),
            )),
    {
        proof {
            reveal(sphere_hit);
            lemma_unit_vector_bounds(ray.direction@);
            lemma_approach_is_sound(
                ray.origin@,
                ray.direction@,
                self.center@,
                self.radius as int,
            );
            lemma_hit_faces_ray(*self, ray@, t_min as int, t_max as int);
            let reported = sphere_hit(*self, ray@, t_min as int, t_max as int);
            if reported.is_some() && computed_in_reach(*self, ray@, reported.unwrap()) {
                lemma_hit_point_distance(*self, ray@, t_min as int, t_max as int);
                if normal_in_reach(*self, reported.unwrap()) {
                    lemma_hit_normal_length(*self, ray@, t_min as int, t_max as int);
                }
            }
        }
        let oc = ray.origin.sub(self.center);
        let scale: Scalar = ray.direction.length();
        let u = ray.direction.unit_vector();
        let along: i128 = unit_product(oc.x, u.x) + unit_product(oc.y, u.y) + unit_product(
            oc.z,
            u.z,
        );
        let aside: u128 = offset_across(oc, u).norm_squared();
        let unit_squared: u128 = u.norm_squared();
        assert(unit_squared <= 3 * (1_000_000_000 * 1_000_000_000)) by (nonlinear_arith)
            requires
                unit_squared == u@.x * u@.x + u@.y * u@.y + u@.z * u@.z,
                -1_000_000_000 <= u@.x <= 1_000_000_000,
                -1_000_000_000 <= u@.y <= 1_000_000_000,
                -1_000_000_000 <= u@.z <= 1_000_000_000,
        ;
        let unit_length: u64 = isqrt(unit_squared);
        proof {
            lemma_floor_sqrt(unit_squared as int);
            assert(unit_length <= 2_000_000_000) by (nonlinear_arith)
                requires
                    unit_length * unit_length <= unit_squared,
                    unit_squared <= 3 * (1_000_000_000 * 1_000_000_000),
                    unit_length >= 0,
            ;
            assert(0 <= self.radius * unit_length <= 9_223_372_036_854_775_807 * 2_000_000_000)
                by (nonlinear_arith)
                requires
                    0 < self.radius <= 9_223_372_036_854_775_807,
                    0 <= unit_length <= 2_000_000_000,
            ;
        }
        let reach: Scalar = saturate((self.radius as i128) * (unit_length as i128) / 1_000_000_000);
        let wide_reach: u128 = reach as u128;
        assert(wide_reach * wide_reach <= 9_223_372_036_854_775_807 * 9_223_372_036_854_775_807
            && wide_reach * wide_reach == reach * reach) by (nonlinear_arith)
            requires
                0 <= wide_reach <= 9_223_372_036_854_775_807,
                wide_reach == reach,
        ;
        let reach_squared: u128 = wide_reach * wide_reach;
        if aside > reach_squared {
            return None;
        }
        let half_chord: u64 = isqrt(reach_squared - aside);
        let wide_chord: i128 = 1_000_000_000 * (half_chord as i128);
        let near: Scalar = over(distance_along(-along - wide_chord, unit_squared as i128), scale);
        let root: Scalar = if near < t_min || t_max < near {
            let far: Scalar = over(
                distance_along(-along + wide_chord, unit_squared as i128),
                scale,
            );
            if far < t_min || t_max < far {
                return None;
            }
            far
        } else {
            near
        };
        let point = ray.at(root);
        let outward_normal = point.sub(self.center).div(self.radius);
        let normal = if outward_normal.is_zero() {
            u.neg()
        } else {
            let facing: Scalar = ray.direction.dot(outward_normal);
            let front_face = facing < 0 || (facing == 0 && u.dot(outward_normal) < 0);
            if front_face {
                outward_normal
            } else {
                outward_normal.neg()
            }
        };
        Some(HitRecord { t: root, point, normal, material: Some(self.material) })
    }
}

} // verus!
