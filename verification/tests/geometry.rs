use lumen_trace::fixed::{LIMIT, ONE};
use lumen_trace::hit_record::HitRecord;
use lumen_trace::material::lambertian::Lambertian;
use lumen_trace::material::metal::Metal;
use lumen_trace::material::surface::Surface;
use lumen_trace::objects::hittable::Hittable;
use lumen_trace::objects::list::HittableList;
use lumen_trace::objects::sphere::Sphere;
use lumen_trace::ray::Ray;
use lumen_trace::vector::Vec3;

const T_MIN: i64 = 1_000_000;

fn unit_sphere_ahead() -> Sphere {
    Sphere { center: Vec3::new(0, 0, -ONE), radius: ONE / 2, material: 0 }
}

#[test]
fn ray_along_axis_meets_sphere_at_half() {
    let ray = Ray::new(Vec3::new(0, 0, 0), Vec3::new(0, 0, -ONE));
    let hit = unit_sphere_ahead().hit(&ray, T_MIN, LIMIT).expect("the ray meets the sphere");
    assert_eq!(hit.t, ONE / 2);
    assert_eq!(hit.point, Vec3::new(0, 0, -ONE / 2));
    assert_eq!(hit.normal, Vec3::new(0, 0, ONE));
    assert_eq!(hit.material, Some(0));
}

#[test]
fn ray_that_passes_beside_the_sphere_misses() {
    let ray = Ray::new(Vec3::new(0, ONE, 0), Vec3::new(0, 0, -ONE));
    assert_eq!(unit_sphere_ahead().hit(&ray, T_MIN, LIMIT), None);
}

#[test]
fn ray_that_points_away_misses() {
    let ray = Ray::new(Vec3::new(0, 0, 0), Vec3::new(0, 0, ONE));
    assert_eq!(unit_sphere_ahead().hit(&ray, T_MIN, LIMIT), None);
}

#[test]
fn ray_from_inside_takes_the_far_root_and_turns_the_normal() {
    let ray = Ray::new(Vec3::new(0, 0, -ONE), Vec3::new(0, 0, -ONE));
    let hit = unit_sphere_ahead().hit(&ray, T_MIN, LIMIT).expect("the ray leaves the sphere");
    assert_eq!(hit.t, ONE / 2);
    assert_eq!(hit.point, Vec3::new(0, 0, -1_500_000_000));
    assert_eq!(hit.normal, Vec3::new(0, 0, ONE));
    assert!(hit.normal.dot(ray.direction) <= 0);
}

#[test]
fn roots_outside_the_interval_are_no_hit() {
    let ray = Ray::new(Vec3::new(0, 0, 0), Vec3::new(0, 0, -ONE));
    let sphere = unit_sphere_ahead();
    assert_eq!(sphere.hit(&ray, T_MIN, ONE / 4), None);
    assert_eq!(sphere.hit(&ray, 2 * ONE, LIMIT), None);
    let far = sphere.hit(&ray, ONE, LIMIT).expect("the far root is in range");
    assert_eq!(far.t, 1_500_000_000);
    assert_eq!(far.point, Vec3::new(0, 0, -1_500_000_000));
    assert_eq!(far.normal, Vec3::new(0, 0, ONE));
    let exact = sphere.hit(&ray, ONE / 2, ONE / 2).expect("the bounds are inclusive");
    assert_eq!(exact.t, ONE / 2);
}

#[test]
fn short_direction_meets_the_sphere_far_along() {
    let ray = Ray::new(Vec3::new(0, 0, 0), Vec3::new(0, 0, -10_000));
    let hit = unit_sphere_ahead().hit(&ray, T_MIN, LIMIT).expect("the ray meets the sphere");
    assert_eq!(hit.t, 50_000 * ONE);
    assert_eq!(hit.point, Vec3::new(0, 0, -ONE / 2));
    assert_eq!(hit.normal, Vec3::new(0, 0, ONE));
    assert_eq!(hit.material, Some(0));
}

#[test]
fn shortest_direction_meets_the_sphere() {
    let ray = Ray::new(Vec3::new(0, 0, 0), Vec3::new(0, 0, -1));
    let hit = unit_sphere_ahead().hit(&ray, T_MIN, LIMIT).expect("the ray meets the sphere");
    assert_eq!(hit.t, 500_000_000 * ONE);
    assert_eq!(hit.point, Vec3::new(0, 0, -ONE / 2));
    assert_eq!(hit.normal, Vec3::new(0, 0, ONE));
    let slanted = Ray::new(Vec3::new(-ONE, -ONE, -ONE), Vec3::new(1, 1, 0));
    let hit = unit_sphere_ahead().hit(&slanted, T_MIN, LIMIT).expect("the ray meets the sphere");
    assert_eq!(hit.t, 646_446_609 * ONE);
    assert_eq!(hit.point, Vec3::new(-353_553_391, -353_553_391, -ONE));
    assert_eq!(hit.normal, Vec3::new(-707_106_782, -707_106_782, 0));
    assert!(hit.normal.dot(slanted.direction) <= 0);
}

#[test]
fn long_direction_meets_the_sphere_early() {
    let ray = Ray::new(Vec3::new(0, 0, 0), Vec3::new(0, 0, -1_000 * ONE));
    let hit = unit_sphere_ahead().hit(&ray, 1, LIMIT).expect("the ray meets the sphere");
    assert_eq!(hit.t, 500_000);
    assert_eq!(hit.point, Vec3::new(0, 0, -ONE / 2));
    assert_eq!(hit.normal, Vec3::new(0, 0, ONE));
}

#[test]
fn small_sphere_is_met() {
    let sphere = Sphere { center: Vec3::new(0, 0, -ONE), radius: 1_000, material: 5 };
    let ray = Ray::new(Vec3::new(0, 0, 0), Vec3::new(0, 0, -ONE));
    let hit = sphere.hit(&ray, T_MIN, LIMIT).expect("the ray passes through the centre");
    assert_eq!(hit.t, 999_999_000);
    assert_eq!(hit.point, Vec3::new(0, 0, -999_999_000));
    assert_eq!(hit.normal, Vec3::new(0, 0, ONE));
    assert_eq!(hit.material, Some(5));
    let beside = Ray::new(Vec3::new(2_000, 0, 0), Vec3::new(0, 0, -ONE));
    assert_eq!(sphere.hit(&beside, T_MIN, LIMIT), None);
    let grazing = Ray::new(Vec3::new(600, 0, 0), Vec3::new(0, 0, -ONE));
    let hit = sphere.hit(&grazing, T_MIN, LIMIT).expect("the ray cuts the sphere");
    assert_eq!(hit.t, 999_999_200);
    assert_eq!(hit.normal, Vec3::new(600_000_000, 0, 800_000_000));
}

#[test]
fn smallest_sphere_is_met_head_on() {
    let sphere = Sphere { center: Vec3::new(0, 0, -ONE), radius: 1, material: 0 };
    let ray = Ray::new(Vec3::new(0, 0, 0), Vec3::new(0, 0, -ONE));
    let hit = sphere.hit(&ray, T_MIN, LIMIT).expect("the ray passes through the centre");
    assert_eq!(hit.t, ONE - 1);
    assert_eq!(hit.point, Vec3::new(0, 0, -ONE + 1));
    assert_eq!(hit.normal, Vec3::new(0, 0, ONE));
    assert_eq!(hit.material, Some(0));
    let inside = Ray::new(Vec3::new(0, 0, -ONE), Vec3::new(0, 0, -2 * ONE));
    let hit = sphere.hit(&inside, 0, LIMIT).expect("the ray leaves the sphere");
    assert_eq!(hit.t, 0);
    assert_eq!(hit.point, Vec3::new(0, 0, -ONE));
    assert_eq!(hit.normal, Vec3::new(0, 0, ONE));
    assert_eq!(hit.material, Some(0));
}

#[test]
fn hits_lie_in_the_interval_on_the_sphere_and_face_the_ray() {
    let sphere = Sphere { center: Vec3::new(ONE / 3, -ONE / 5, -2 * ONE), radius: 700_000_000, material: 2 };
    let mut hits = 0;
    let mut i: i64 = -20;
    while i <= 20 {
        let mut j: i64 = -20;
        while j <= 20 {
            let direction = Vec3::new(i * ONE / 20, j * ONE / 20, -ONE);
            let ray = Ray::new(Vec3::new(0, 0, 0), direction);
            if let Some(hit) = sphere.hit(&ray, T_MIN, 100 * ONE) {
                hits += 1;
                assert!(T_MIN <= hit.t && hit.t <= 100 * ONE);
                assert_eq!(hit.point, ray.at(hit.t));
                let distance = hit.point.sub(sphere.center).length();
                assert!((distance - sphere.radius).abs() <= 100, "distance {}", distance);
                assert!(hit.normal.dot(ray.direction) <= 0);
                assert!((hit.normal.length() - ONE).abs() <= 200, "normal {:?}", hit.normal);
                assert_eq!(hit.material, Some(2));
            }
            j += 1;
        }
        i += 1;
    }
    assert!(hits > 100);
}

fn distance_slack(radius: i64, t: i64, scale: i64) -> i128 {
    let one = ONE as i128;
    let (radius, t, scale) = (radius as i128, t as i128, scale as i128);
    let k = ((scale * (t.abs() + 1)) / one + 1 + scale + one) / one;
    3 * k + 8 * (radius / one + 1) + 68 + (26 + 12 * (k + 1) * (k + 1)) / radius
}

fn normal_slack(radius: i64, d: i128) -> i128 {
    let one = ONE as i128;
    let radius = radius as i128;
    4 + (12 * radius * radius + one * one * (2 * radius * (d + 1) + (d + 1) * (d + 1))) / (radius * radius * one)
}

#[test]
fn slack_of_an_ordinary_hit_is_under_a_ten_millionth() {
    assert_eq!(distance_slack(ONE, 2 * ONE, ONE), 96);
    assert_eq!(distance_slack(ONE / 2, ONE / 2, ONE), 82);
    assert_eq!(normal_slack(ONE / 2, 82), 336);
}

#[test]
fn hits_stay_within_the_slack() {
    let spheres = [
        Sphere { center: Vec3::new(2 * ONE, -ONE, -5 * ONE), radius: 1_250_000_000, material: 0 },
        Sphere { center: Vec3::new(2 * ONE, -ONE, -5 * ONE), radius: 1_000, material: 0 },
        Sphere { center: Vec3::new(0, -100_500_000_000, -ONE), radius: 100 * ONE, material: 0 },
    ];
    let origin = Vec3::new(ONE / 7, ONE / 3, ONE);
    let mut hits = 0;
    for sphere in spheres {
        for length in [1i64, 700, 31_000, ONE / 3, ONE, 40 * ONE] {
            let mut i: i64 = -20;
            while i <= 20 {
                let mut j: i64 = -20;
                while j <= 20 {
                    let aim = sphere.center.sub(origin).unit_vector().add(Vec3::new(i * 14_000_000, j * 14_000_000, 0));
                    let direction = aim.scale(length);
                    j += 1;
                    if direction.is_zero() {
                        continue;
                    }
                    let ray = Ray::new(origin, direction);
                    if let Some(hit) = sphere.hit(&ray, T_MIN, LIMIT) {
                        if hit.t == LIMIT {
                            continue;
                        }
                        hits += 1;
                        let dist = hit.point.sub(sphere.center).length();
                        let slack = distance_slack(sphere.radius, hit.t, direction.length());
                        assert!(((dist - sphere.radius).abs() as i128) <= slack, "distance {} of radius {}", dist, sphere.radius);
                        assert!(hit.normal.dot(direction) <= 0);
                        if !hit.point.sub(sphere.center).div(sphere.radius).is_zero() {
                            let length = hit.normal.length();
                            assert!(((length - ONE).abs() as i128) <= normal_slack(sphere.radius, slack), "normal {}", length);
                        }
                    }
                }
                i += 1;
            }
        }
    }
    assert!(hits > 1_000, "{} hits", hits);
}

fn as_reals(v: Vec3) -> [f64; 3] {
    [v.x() as f64 / ONE as f64, v.y() as f64 / ONE as f64, v.z() as f64 / ONE as f64]
}

fn real_dot(a: [f64; 3], b: [f64; 3]) -> f64 {
    a[0] * b[0] + a[1] * b[1] + a[2] * b[2]
}

#[test]
fn hits_agree_with_the_quadratic_formula_in_floating_point() {
    let sphere = Sphere { center: Vec3::new(-ONE / 2, ONE / 4, -3 * ONE), radius: 900_000_000, material: 0 };
    let origin = Vec3::new(ONE / 10, -ONE / 5, ONE / 2);
    let (mut hits, mut misses) = (0, 0);
    let mut i: i64 = -25;
    while i <= 25 {
        let mut j: i64 = -25;
        while j <= 25 {
            let direction = Vec3::new(-ONE / 6 + i * ONE / 50, ONE / 8 + j * ONE / 50, -ONE);
            let ray = Ray::new(origin, direction);
            let oc = as_reals(origin.sub(sphere.center));
            let d = as_reals(direction);
            let a = real_dot(d, d);
            let half_b = real_dot(oc, d);
            let c = real_dot(oc, oc) - 0.81;
            let disc = half_b * half_b - a * c;
            match sphere.hit(&ray, T_MIN, LIMIT) {
                Some(hit) => {
                    hits += 1;
                    let expected = (-half_b - disc.sqrt()) / a;
                    let got = hit.t as f64 / ONE as f64;
                    assert!((got - expected).abs() < 1e-6, "t {} against {}", got, expected);
                    let normal = as_reals(hit.normal);
                    for k in 0..3 {
                        let outward = (as_reals(origin)[k] + expected * d[k] - as_reals(sphere.center)[k]) / 0.9;
                        assert!((normal[k] - outward).abs() < 1e-5);
                    }
                }
                None => {
                    misses += 1;
                    assert!(disc < 1e-6, "missed although the discriminant is {}", disc);
                }
            }
            j += 1;
        }
        i += 1;
    }
    assert!(hits > 100);
    assert!(misses > 100);
}

#[test]
fn new_record_is_empty() {
    let record = HitRecord::new();
    assert_eq!(record.t, 0);
    assert_eq!(record.point, Vec3::new(0, 0, 0));
    assert_eq!(record.normal, Vec3::new(0, 0, 0));
    assert_eq!(record.material, None);
}

#[test]
fn face_normal_is_turned_against_the_ray() {
    let ray = Ray::new(Vec3::new(0, 0, 0), Vec3::new(0, 0, -ONE));
    let mut record = HitRecord::new();
    record.t = 5;
    record.set_face_normal(&ray, Vec3::new(0, 0, ONE));
    assert_eq!(record.normal, Vec3::new(0, 0, ONE));
    record.set_face_normal(&ray, Vec3::new(0, 0, -ONE));
    assert_eq!(record.normal, Vec3::new(0, 0, ONE));
    record.set_face_normal(&ray, Vec3::new(ONE, 0, 0));
    assert_eq!(record.normal, Vec3::new(-ONE, 0, 0));
    assert_eq!(record.t, 5);
    assert_eq!(record.material, None);
}

#[test]
fn update_copies_every_field() {
    let other = HitRecord {
        t: 7,
        point: Vec3::new(1, 2, 3),
        normal: Vec3::new(0, ONE, 0),
        material: Some(4),
    };
    let mut record = HitRecord::new();
    record.update(&other);
    assert_eq!(record, other);
}

fn two_spheres() -> HittableList {
    let mut world = HittableList::new();
    let gray = world.add_material(Surface::Lambertian(Lambertian { albedo: Vec3::new(ONE / 2, ONE / 2, ONE / 2) }));
    let mirror = world.add_material(Surface::Metal(Metal { albedo: Vec3::new(ONE, ONE, ONE), fuzz: 0 }));
    world.add(Sphere { center: Vec3::new(0, 0, -3 * ONE), radius: ONE / 2, material: gray });
    world.add(Sphere { center: Vec3::new(0, 0, -ONE), radius: ONE / 2, material: mirror });
    world
}

#[test]
fn scene_reports_the_nearest_hit() {
    let world = two_spheres();
    let ray = Ray::new(Vec3::new(0, 0, 0), Vec3::new(0, 0, -ONE));
    let hit = world.hit(&ray, T_MIN, LIMIT).expect("both spheres lie ahead");
    assert_eq!(hit.t, ONE / 2);
    assert_eq!(hit.material, Some(1));
    let behind = world.hit(&ray, 2 * ONE, LIMIT).expect("the far sphere is in range");
    assert_eq!(behind.t, 2_500_000_000);
    assert_eq!(behind.material, Some(0));
}

#[test]
fn scene_order_does_not_change_the_nearest_hit() {
    let mut world = HittableList::new();
    world.add(Sphere { center: Vec3::new(0, 0, -ONE), radius: ONE / 2, material: 1 });
    world.add(Sphere { center: Vec3::new(0, 0, -3 * ONE), radius: ONE / 2, material: 0 });
    let ray = Ray::new(Vec3::new(0, 0, 0), Vec3::new(0, 0, -ONE));
    let hit = world.hit(&ray, T_MIN, LIMIT).expect("both spheres lie ahead");
    assert_eq!(hit.t, ONE / 2);
    assert_eq!(hit.material, Some(1));
}

#[test]
fn earlier_sphere_wins_a_tie() {
    let mut world = HittableList::new();
    world.add(Sphere { center: Vec3::new(0, 0, -ONE), radius: ONE / 2, material: 7 });
    world.add(Sphere { center: Vec3::new(0, 0, -ONE), radius: ONE / 2, material: 8 });
    let ray = Ray::new(Vec3::new(0, 0, 0), Vec3::new(0, 0, -ONE));
    let hit = world.hit(&ray, T_MIN, LIMIT).expect("the spheres lie ahead");
    assert_eq!(hit.material, Some(7));
}

#[test]
fn empty_scene_is_never_hit() {
    let world = HittableList::new();
    let ray = Ray::new(Vec3::new(0, 0, 0), Vec3::new(0, 0, -ONE));
    assert_eq!(world.hit(&ray, T_MIN, LIMIT), None);
}

#[test]
fn scene_keeps_its_spheres_and_materials_in_order() {
    let mut world = two_spheres();
    assert_eq!(world.objects.len(), 2);
    assert_eq!(world.objects[1].material, 1);
    assert_eq!(world.material(1), Some(Surface::Metal(Metal { albedo: Vec3::new(ONE, ONE, ONE), fuzz: 0 })));
    assert_eq!(world.material(2), None);
    let next = world.add_material(Surface::Lambertian(Lambertian { albedo: Vec3::new(0, 0, 0) }));
    assert_eq!(next, 2);
    world.clear();
    assert_eq!(world.objects.len(), 0);
    assert_eq!(world.material(0), None);
    let ray = Ray::new(Vec3::new(0, 0, 0), Vec3::new(0, 0, -ONE));
    assert_eq!(world.hit(&ray, T_MIN, LIMIT), None);
}
