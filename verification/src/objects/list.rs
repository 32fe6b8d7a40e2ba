//! The scene: an ordered collection of spheres and the table of their
//! materials.

use crate::fixed::Scalar;
use crate::hit_record::{seen, HitModel, HitRecord};
use crate::material::surface::Surface;
use crate::objects::hittable::Hittable;
use crate::objects::sphere::{lemma_hit_faces_ray, lemma_hit_restricts, sphere_hit, Sphere};
use crate::ray::{Ray, RayModel};
use crate::vector::{v_dot, v_fits, v_zero};
use vstd::prelude::*;

verus! {

/// A scene. Spheres are tested in the order in which they were added;
/// each names its material by its index in `materials`.
pub struct HittableList {
    pub objects: Vec<Sphere>,
    pub materials: Vec<Surface>,
}

/// The nearer of two optional hits; the first is kept where they tie.
pub open spec fn nearer(best: Option<HitModel>, candidate: Option<HitModel>) -> Option<
    HitModel,
> {
    match (best, candidate) {
        (Some(b), Some(c)) => if c.t < b.t {
            candidate
        } else {
            best
        },
        (None, _) => candidate,
        (_, None) => best,
    }
}

/// The nearest hit of `ray` among `objects` within `[t_min, t_max]`; among
/// hits at the same parameter the earliest object's.
pub open spec fn nearest_hit(objects: Seq<Sphere>, ray: RayModel, t_min: int, t_max: int) -> Option<
    HitModel,
>
    decreases objects.len(),
{
    if objects.len() == 0 {
        None
    } else {
        nearer(
            nearest_hit(objects.drop_last(), ray, t_min, t_max),
            sphere_hit(objects.last(), ray, t_min, t_max),
        )
    }
}

/// Whether `other`, reported by the object at `j`, leaves the hit `hit` of
/// the object at `index` in front: it is none, or farther, or just as far
/// and not earlier.
pub open spec fn yields_to(other: Option<HitModel>, j: int, hit: HitModel, index: int) -> bool {
    match other {
        Some(o) => hit.t < o.t || (hit.t == o.t && index <= j),
        None => true,
    }
}

/// Whether `hit` is what the object at `index` reports, and no object
/// reports a nearer hit, nor an earlier object one just as near.
pub open spec fn is_nearest_at(
    objects: Seq<Sphere>,
    ray: RayModel,
    t_min: int,
    t_max: int,
    index: int,
    hit: HitModel,
) -> bool {
    &&& 0 <= index < objects.len()
    &&& sphere_hit(objects[index], ray, t_min, t_max) == Some(hit)
    &&& forall|j: int|
        0 <= j < objects.len() ==> yields_to(
            #[trigger] sphere_hit(objects[j], ray, t_min, t_max),
            j,
            hit,
            index,
        )
}

/// Whether none of `objects` is hit.
pub open spec fn all_missed(objects: Seq<Sphere>, ray: RayModel, t_min: int, t_max: int) -> bool {
    forall|j: int|
        0 <= j < objects.len() ==> (#[trigger] sphere_hit(objects[j], ray, t_min, t_max)).is_none()
}

/// The nearest hit is the nearest: where some object is hit, it is the hit
/// of the earliest object among those hit at the smallest parameter; where
/// none is hit, there is none.
pub proof fn lemma_nearest_hit(objects: Seq<Sphere>, ray: RayModel, t_min: int, t_max: int)
    ensures
        match nearest_hit(objects, ray, t_min, t_max) {
            Some(hit) => exists|i: int| is_nearest_at(objects, ray, t_min, t_max, i, hit),
            None => all_missed(objects, ray, t_min, t_max),
        },
    decreases objects.len(),
{
    if objects.len() > 0 {
        let front = objects.drop_last();
        let last = objects.len() - 1;
        lemma_nearest_hit(front, ray, t_min, t_max);
        assert forall|j: int| 0 <= j < front.len() implies front[j] == objects[j] by {}
        let before = nearest_hit(front, ray, t_min, t_max);
        match nearest_hit(objects, ray, t_min, t_max) {
            Some(hit) => {
                let i = if before == Some(hit) {
                    choose|i: int| is_nearest_at(front, ray, t_min, t_max, i, hit)
                } else {
                    last
                };
                if before.is_some() {
                    let k = choose|k: int|
                        is_nearest_at(front, ray, t_min, t_max, k, before.unwrap());
                    assert(front[k] == objects[k]);
                }
                assert forall|j: int| 0 <= j < objects.len() implies yields_to(
                    #[trigger] sphere_hit(objects[j], ray, t_min, t_max),
                    j,
                    hit,
                    i,
                ) by {
                    if j < last {
                        assert(front[j] == objects[j]);
                    }
                }
                assert(is_nearest_at(objects, ray, t_min, t_max, i, hit));
            },
            None => {
                assert forall|j: int| 0 <= j < objects.len() implies (#[trigger] sphere_hit(
                    objects[j],
                    ray,
                    t_min,
                    t_max,
                )).is_none() by {
                    if j < last {
                        assert(front[j] == objects[j]);
                    }
                }
            },
        }
    }
}

/// Every hit that a scene reports lies within the interval, its normal is
/// not zero and does not point along the ray, and it names a material.
pub proof fn lemma_nearest_hit_faces_ray(
    objects: Seq<Sphere>,
    ray: RayModel,
    t_min: int,
    t_max: int,
)
    requires
        ray.direction != v_zero(),
        v_fits(ray.direction),
    ensures
        nearest_hit(objects, ray, t_min, t_max) matches Some(hit) ==> {
            &&& t_min <= hit.t <= t_max
            &&& v_dot(hit.normal, ray.direction) <= 0
            &&& hit.normal != v_zero()
            &&& hit.material.is_some()
        },
{
    lemma_nearest_hit(objects, ray, t_min, t_max);
    if let Some(hit) = nearest_hit(objects, ray, t_min, t_max) {
        let i = choose|i: int| is_nearest_at(objects, ray, t_min, t_max, i, hit);
        lemma_hit_faces_ray(objects[i], ray, t_min, t_max);
    }
}

impl HittableList {
    /// The empty scene.
    pub fn new() -> (r: Self)
        ensures
            r.objects@ == Seq::<Sphere>::empty(),
            r.materials@ == Seq::<Surface>::empty(),
    {
        HittableList { objects: Vec::new(), materials: Vec::new() }
    }

    /// Appends `object` to the scene.
    pub fn add(&mut self, object: Sphere)
        ensures
            final(self).objects@ == old(self).objects@.push(object),
            final(self).materials@ == old(self).materials@,
    {
        self.objects.push(object)
    }

    /// Appends `material` to the table and returns its index.
    pub fn add_material(&mut self, material: Surface) -> (index: usize)
        ensures
            index == old(self).materials@.len(),
            final(self).materials@ == old(self).materials@.push(material),
            final(self).objects@ == old(self).objects@,
    {
        let index = self.materials.len();
        self.materials.push(material);
        index
    }

    /// The material at `index`, if the table holds one there.
    pub fn material(&self, index: usize) -> (r: Option<Surface>)
        ensures
            r == (if index < self.materials@.len() {
                Some(self.materials@[index as int])
            } else {
                None
            }),
    {
        if index < self.materials.len() {
            Some(self.materials[index])
        } else {
            None
        }
    }

    /// Removes every sphere and every material.
    pub fn clear(&mut self)
        ensures
            final(self).objects@ == Seq::<Sphere>::empty(),
            final(self).materials@ == Seq::<Surface>::empty(),
    {
        self.objects.clear();
        self.materials.clear();
    }
}

impl Hittable for HittableList {
    open spec fn valid(&self) -> bool {
        forall|i: int| 0 <= i < self.objects@.len() ==> (#[trigger] self.objects@[i]).valid()
    }

    open spec fn hit_model(&self, ray: RayModel, t_min: int, t_max: int) -> Option<HitModel> {
        nearest_hit(self.objects@, ray, t_min, t_max)
    }

    fn hit(&self, ray: &Ray, t_min: Scalar, t_max: Scalar) -> (r: Option<HitRecord>)
        ensures
            r matches Some(record) ==> {
                &&& t_min <= record.t <= t_max
                &&& v_dot(record.normal@, ray.direction@) <= 0
                &&& record.normal@ != v_zero()
                &&& record.material.is_some()
            },
    {
        let mut best: Option<HitRecord> = None;
        let mut closest_so_far: Scalar = t_max;
        let mut i: usize = 0;
        while i < self.objects.len()
            invariant
                i <= self.objects@.len(),
                self.valid(),
                ray.direction@ != v_zero(),
                seen(best) == nearest_hit(
                    self.objects@.take(i as int),
                    ray@,
                    t_min as int,
                    t_max as int,
                ),
                closest_so_far == (match best {
                    Some(record) => record.t,
                    None => t_max,
                }),
                best matches Some(record) ==> {
                    &&& t_min <= record.t <= t_max
                    &&& v_dot(record.normal@, ray.direction@) <= 0
                    &&& record.normal@ != v_zero()
                    &&& record.material.is_some()
                },
            decreases self.objects@.len() - i,
        {
            let candidate = self.objects[i].hit(ray, t_min, closest_so_far);
            proof {
                lemma_hit_restricts(
                    self.objects@[i as int],
                    ray@,
                    t_min as int,
                    t_max as int,
                    closest_so_far as int,
                );
                let grown = self.objects@.take(i + 1);
                assert(grown.drop_last() == self.objects@.take(i as int));
                assert(grown.last() == self.objects@[i as int]);
            }
            match candidate {
                Some(record) => {
                    if best.is_none() || record.t < closest_so_far {
                        closest_so_far = record.t;
                        best = Some(record);
                    }
                },
                None => {},
            }
            i = i + 1;
        }
        proof {
            assert(self.objects@.take(i as int) == self.objects@);
        }
        best
    }
}

} // verus!
