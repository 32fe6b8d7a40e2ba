//! The path-tracing recursion: the colour that arrives along a ray.

use crate::fixed::{minus, plus, spec_minus, spec_plus, spec_times, times, Scalar, ONE};
use crate::material::base::{scatter_seen, Material};
use crate::material::surface::Surface;
use crate::objects::hittable::Hittable;
use crate::objects::list::{nearest_hit, HittableList};
use crate::objects::sphere::Sphere;
use crate::ray::{Ray, RayModel};
use crate::vector::{
    lemma_direction_of_is_direction, v_add, v_direction_of, v_is_direction, v_mul, v_scale,
    v_unit, v_zero, Color, Vec3, V3,
};
use rand::rngs::StdRng;
use vstd::prelude::*;

verus! {

/// The nearest parameter at which a hit counts: a thousandth, so that a
/// scattered ray does not meet the surface it leaves.
pub const T_MIN: Scalar = 1_000_000;

/// The farthest parameter at which a hit counts: the largest there is.
pub const T_MAX: Scalar = 9_223_372_036_854_775_807;

/// White, the colour of the sky toward the horizon below.
pub open spec fn white() -> V3 {
    V3 { x: ONE as int, y: ONE as int, z: ONE as int }
}

/// Sky blue, `(0.5, 0.7, 1.0)`, the colour of the sky straight above.
pub open spec fn sky_blue() -> V3 {
    V3 { x: 500_000_000, y: 700_000_000, z: ONE as int }
}

/// The colour of the sky along `direction`: with `t = (y + 1) / 2` for the
/// height `y` of the unit direction, `(1 - t) white + t sky_blue`.
pub open spec fn background(direction: V3) -> V3 {
    let t = spec_times(ONE / 2, spec_plus(v_unit(direction).y, ONE as int));
    v_add(v_scale(white(), spec_minus(ONE as int, t)), v_scale(sky_blue(), t))
}

/// The material that `index` names in `materials`, if it names one.
pub open spec fn material_at(materials: Seq<Surface>, index: Option<usize>) -> Option<Surface> {
    match index {
        Some(i) => if i < materials.len() {
            Some(materials[i as int])
        } else {
            None
        },
        None => None,
    }
}

/// The colour that arrives along `ray` after at most `depth` bounces, when
/// the random directions drawn at the bounces are `draws`, in order.
///
/// With no bounce left it is black. A ray that meets nothing within
/// `[T_MIN, T_MAX]` sees the sky. At a hit, a surface with no material and
/// a material that absorbs the ray give black; otherwise the colour along
/// the scattered ray, one bounce lower, is tinted by the attenuation.
pub open spec fn trace(
    objects: Seq<Sphere>,
    materials: Seq<Surface>,
    ray: RayModel,
    depth: nat,
    draws: Seq<V3>,
) -> V3
    decreases depth,
{
    if depth == 0 {
        v_zero()
    } else {
        match nearest_hit(objects, ray, T_MIN as int, T_MAX as int) {
            None => background(ray.direction),
            Some(hit) => match material_at(materials, hit.material) {
                None => v_zero(),
                Some(material) => match material.scatter_model(draws[0], ray, hit) {
                    None => v_zero(),
                    Some(s) => v_mul(
                        s.attenuation,
                        trace(
                            objects,
                            materials,
                            RayModel { origin: s.origin, direction: s.direction },
                            (depth - 1) as nat,
                            draws.skip(1),
                        ),
                    ),
                },
            },
        }
    }
}

/// Whether every member of `draws` is a unit direction.
pub open spec fn all_directions(draws: Seq<V3>) -> bool {
    forall|i: int| 0 <= i < draws.len() ==> v_is_direction(#[trigger] draws[i])
}

/// Whether `color` is what arrives along `ray` after at most `depth`
/// bounces for some random directions, one for each bounce that may
/// happen.
pub open spec fn is_trace_of(
    color: V3,
    objects: Seq<Sphere>,
    materials: Seq<Surface>,
    ray: RayModel,
    depth: nat,
) -> bool {
    exists|draws: Seq<V3>|
        all_directions(draws) && draws.len() == depth && color == #[trigger] trace(
            objects,
            materials,
            ray,
            depth,
            draws,
        )
}

/// The sum of `colors`, added up from the first to the last.
pub open spec fn color_sum(colors: Seq<V3>) -> V3
    decreases colors.len(),
{
    if colors.len() == 0 {
        v_zero()
    } else {
        v_add(color_sum(colors.drop_last()), colors.last())
    }
}

/// The colour of the sky along the direction of `ray`.
pub fn sky(ray: &Ray) -> (r: Color)
    requires
        ray.direction@ != v_zero(),
    ensures
        r@ == background(ray.direction@),
{
    let unit_direction = ray.direction.unit_vector();
    let t: Scalar = times(ONE / 2, plus(unit_direction.y(), ONE));
    Vec3::new(ONE, ONE, ONE).scale(minus(ONE, t)).add(
        Vec3::new(500_000_000, 700_000_000, ONE).scale(t),
    )
}

/// The colour that arrives along `ray` through the scene `world` after at
/// most `depth` bounces, with the random direction of each bounce drawn
/// from `rng`.
pub fn ray_color(rng: &mut StdRng, ray: Ray, world: &HittableList, depth: usize) -> (r: Color)
    requires
        world.valid(),
        ray.direction@ != v_zero(),
    ensures
        is_trace_of(r@, world.objects@, world.materials@, ray@, depth as nat),
        depth == 0 ==> r@ == v_zero(),
        depth > 0 && world.hit_model(ray@, T_MIN as int, T_MAX as int).is_none() ==> r@
            == background(ray.direction@),
    decreases depth,
{
    let ghost spare = v_direction_of(v_zero());
    let ghost unused = Seq::new(depth as nat, |i: int| spare);
    proof {
        lemma_direction_of_is_direction(v_zero());
    }
    if depth == 0 {
        let black = Color::default();
        assert(black@ == trace(world.objects@, world.materials@, ray@, depth as nat, unused));
        return black;
    }
    match world.hit(&ray, T_MIN, T_MAX) {
        None => {
            let color = sky(&ray);
            assert(color@ == trace(world.objects@, world.materials@, ray@, depth as nat, unused));
            color
        },
        Some(record) => {
            let material = match record.material {
                Some(index) => world.material(index),
                None => None,
            };
            match material {
                None => {
                    let black = Color::default();
                    assert(black@ == trace(
                        world.objects@,
                        world.materials@,
                        ray@,
                        depth as nat,
                        unused,
                    ));
                    black
                },
                Some(material) => {
                    let outcome = material.scatter(rng, &ray, &record);
                    let ghost unit = choose|unit: V3|
                        v_is_direction(unit) && scatter_seen(outcome)
                            == #[trigger] material.scatter_model(unit, ray@, record@);
                    match outcome {
                        None => {
                            let black = Color::default();
                            let ghost draws = unused.update(0, unit);
                            assert(draws[0] == unit);
                            assert(all_directions(draws));
                            assert(black@ == trace(
                                world.objects@,
                                world.materials@,
                                ray@,
                                depth as nat,
                                draws,
                            ));
                            black
                        },
                        Some((scattered, attenuation)) => {
                            let rest = ray_color(rng, scattered, world, depth - 1);
                            let ghost later = choose|draws: Seq<V3>|
                                all_directions(draws) && draws.len() == depth - 1 && rest@
                                    == #[trigger] trace(
                                    world.objects@,
                                    world.materials@,
                                    scattered@,
                                    (depth - 1) as nat,
                                    draws,
                                );
                            let color = attenuation.mul(rest);
                            let ghost draws = seq![unit] + later;
                            assert(draws[0] == unit);
                            assert(draws.skip(1) == later);
                            assert(all_directions(draws)) by {
                                assert forall|i: int| 0 <= i < draws.len() implies v_is_direction(
                                    #[trigger] draws[i],
                                ) by {
                                    if i > 0 {
                                        assert(draws[i] == later[i - 1]);
                                    }
                                }
                            }
                            assert(color@ == trace(
                                world.objects@,
                                world.materials@,
                                ray@,
                                depth as nat,
                                draws,
                            ));
                            color
                        },
                    }
                },
            }
        },
    }
}

/// The colour of one pixel before it is averaged: the sum of the colours
/// that arrive along `rays`, the camera rays of its samples, each traced
/// through `world` for at most `depth` bounces.
pub fn render_pixel(rng: &mut StdRng, rays: &Vec<Ray>, world: &HittableList, depth: usize) -> (r:
    Color)
    requires
        world.valid(),
        forall|k: int| 0 <= k < rays@.len() ==> (#[trigger] rays@[k]).direction@ != v_zero(),
    ensures
        exists|colors: Seq<V3>|
            {
                &&& colors.len() == rays@.len()
                &&& forall|k: int|
                    0 <= k < colors.len() ==> is_trace_of(
                        #[trigger] colors[k],
                        world.objects@,
                        world.materials@,
                        rays@[k]@,
                        depth as nat,
                    )
                &&& r@ == color_sum(colors)
            },
{
    let mut pixel_color = Color::default();
    let ghost mut colors = Seq::<V3>::empty();
    let mut k: usize = 0;
    while k < rays.len()
        invariant
            k <= rays@.len(),
            world.valid(),
            forall|k: int| 0 <= k < rays@.len() ==> (#[trigger] rays@[k]).direction@ != v_zero(),
            colors.len() == k,
            forall|j: int|
                0 <= j < colors.len() ==> is_trace_of(
                    #[trigger] colors[j],
                    world.objects@,
                    world.materials@,
                    rays@[j]@,
                    depth as nat,
                ),
            pixel_color@ == color_sum(colors),
        decreases rays@.len() - k,
    {
        let sample = ray_color(rng, rays[k], world, depth);
        pixel_color = pixel_color.add(sample);
        proof {
            let grown = colors.push(sample@);
            assert(grown.drop_last() == colors);
            assert(grown.last() == sample@);
            colors = grown;
        }
        k = k + 1;
    }
    pixel_color
}

} // verus!
