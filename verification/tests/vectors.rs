use lumen_trace::fixed::{LIMIT, ONE};
use lumen_trace::ray::Ray;
use lumen_trace::vector::{
    direction_of, random_in_hemisphere, random_in_unit_sphere, random_unit_vector, reflect,
    scale_by, toward, Vec3,
};
use rand::rngs::StdRng;
use rand::SeedableRng;

#[test]
fn components_come_back_as_given() {
    let v = Vec3::new(1, -2, 3);
    assert_eq!(v.x(), 1);
    assert_eq!(v.y(), -2);
    assert_eq!(v.z(), 3);
    assert_eq!(v.get(0), 1);
    assert_eq!(v.get(1), -2);
    assert_eq!(v.get(2), 3);
    assert_eq!(Vec3::default(), Vec3::new(0, 0, 0));
}

#[test]
fn arithmetic_is_component_wise() {
    let a = Vec3::new(ONE, 2 * ONE, 3 * ONE);
    let b = Vec3::new(ONE / 2, -ONE, 4 * ONE);
    assert_eq!(a.add(b), Vec3::new(1_500_000_000, ONE, 7 * ONE));
    assert_eq!(a.sub(b), Vec3::new(ONE / 2, 3 * ONE, -ONE));
    assert_eq!(a.mul(b), Vec3::new(ONE / 2, -2 * ONE, 12 * ONE));
    assert_eq!(a.neg(), Vec3::new(-ONE, -2 * ONE, -3 * ONE));
    assert_eq!(a.scale(ONE / 2), Vec3::new(ONE / 2, ONE, 1_500_000_000));
    assert_eq!(scale_by(ONE / 2, a), a.scale(ONE / 2));
    assert_eq!(a.div(2 * ONE), Vec3::new(ONE / 2, ONE, 1_500_000_000));
}

#[test]
fn arithmetic_saturates() {
    let big = Vec3::new(LIMIT, -LIMIT, i64::MIN);
    assert_eq!(big.add(big), Vec3::new(LIMIT, -LIMIT, -LIMIT));
    assert_eq!(big.neg(), Vec3::new(-LIMIT, LIMIT, LIMIT));
    assert_eq!(big.scale(2 * ONE), Vec3::new(LIMIT, -LIMIT, -LIMIT));
}

#[test]
fn dot_and_cross_products() {
    let a = Vec3::new(ONE, 2 * ONE, 3 * ONE);
    let b = Vec3::new(4 * ONE, -5 * ONE, 6 * ONE);
    assert_eq!(a.dot(b), 12 * ONE);
    assert_eq!(b.dot(a), 12 * ONE);
    assert_eq!(a.cross(b), Vec3::new(27 * ONE, 6 * ONE, -13 * ONE));
    let x = Vec3::new(ONE, 0, 0);
    let y = Vec3::new(0, ONE, 0);
    assert_eq!(x.cross(y), Vec3::new(0, 0, ONE));
    assert_eq!(y.cross(x), Vec3::new(0, 0, -ONE));
}

#[test]
fn dot_product_rounds_each_term_toward_zero() {
    let a = Vec3::new(3, -3, 1);
    let b = Vec3::new(500_000_000, 500_000_000, 999_999_999);
    assert_eq!(a.dot(b), 0);
    assert_eq!(Vec3::new(3, 3, 0).dot(b), 2);
}

#[test]
fn lengths() {
    let v = Vec3::new(3 * ONE, 4 * ONE, 0);
    assert_eq!(v.length_squared(), 25 * ONE);
    assert_eq!(v.length(), 5 * ONE);
    assert_eq!(Vec3::new(1, 1, 0).length(), 1);
    assert_eq!(Vec3::new(1, 1, 0).length_squared(), 0);
    assert_eq!(Vec3::new(0, 0, 0).length(), 0);
    assert_eq!(Vec3::new(i64::MIN, i64::MIN, i64::MIN).length(), LIMIT);
}

#[test]
fn unit_vector_has_length_one() {
    let v = Vec3::new(3 * ONE, 4 * ONE, 0);
    assert_eq!(v.unit_vector(), Vec3::new(600_000_000, 800_000_000, 0));
    assert_eq!(v.unit_vector().length(), ONE);
    let w = Vec3::new(ONE, ONE, ONE).unit_vector();
    assert_eq!(w, Vec3::new(577_350_269, 577_350_269, 577_350_269));
    assert!(ONE - 4 <= w.length() && w.length() <= ONE);
    let small = Vec3::new(0, 0, -7).unit_vector();
    assert_eq!(small, Vec3::new(0, 0, -ONE));
}

#[test]
fn unit_vector_of_any_vector_of_length_one_or_more() {
    let mut k: i64 = 1;
    while k < 2_000 {
        let v = Vec3::new(k * 7_919 * 1_000, ONE - k * 104_729, k * k * 31 + ONE / 3);
        let length = v.unit_vector().length();
        assert!(v.length() >= ONE);
        assert!(ONE - 4 <= length && length <= ONE, "length {} for k = {}", length, k);
        k += 1;
    }
}

#[test]
fn is_zero_only_for_the_zero_vector() {
    assert!(Vec3::new(0, 0, 0).is_zero());
    assert!(!Vec3::new(0, 0, 1).is_zero());
    assert!(!Vec3::new(-1, 0, 0).is_zero());
}

#[test]
fn near_zero_looks_at_magnitudes() {
    assert!(Vec3::new(0, 0, 0).near_zero());
    assert!(Vec3::new(9, -9, 9).near_zero());
    assert!(!Vec3::new(10, 0, 0).near_zero());
    assert!(!Vec3::new(0, -10, 0).near_zero());
    assert!(!Vec3::new(0, 0, ONE).near_zero());
    assert!(!Vec3::new(-ONE, -ONE, -ONE).near_zero());
}

#[test]
fn reflect_mirrors_about_the_normal() {
    let v = Vec3::new(ONE, -ONE, 0);
    let n = Vec3::new(0, ONE, 0);
    assert_eq!(reflect(v, n), Vec3::new(ONE, ONE, 0));
    let along = Vec3::new(0, 0, -ONE);
    assert_eq!(reflect(along, Vec3::new(0, 0, ONE)), Vec3::new(0, 0, ONE));
    assert_eq!(reflect(v, Vec3::new(ONE, 0, 0)), Vec3::new(-ONE, -ONE, 0));
}

#[test]
fn ray_at_follows_the_direction() {
    let ray = Ray::new(Vec3::new(ONE, 2 * ONE, 3 * ONE), Vec3::new(0, ONE, -2 * ONE));
    assert_eq!(ray.at(0), Vec3::new(ONE, 2 * ONE, 3 * ONE));
    assert_eq!(ray.at(ONE / 2), Vec3::new(ONE, 2_500_000_000, 2 * ONE));
    assert_eq!(ray.at(-ONE), Vec3::new(ONE, ONE, 5 * ONE));
    assert_eq!(ray.origin, Vec3::new(ONE, 2 * ONE, 3 * ONE));
    assert_eq!(ray.direction, Vec3::new(0, ONE, -2 * ONE));
}

#[test]
fn random_components_lie_in_their_range() {
    let mut rng = StdRng::seed_from_u64(11);
    let mut above_min = false;
    let mut distinct = false;
    let first = Vec3::rand_range(&mut rng, -5, 5_000);
    for _ in 0..200 {
        let v = Vec3::rand_range(&mut rng, -5, 5_000);
        for c in [v.x(), v.y(), v.z()] {
            assert!(-5 <= c && c < 5_000);
            above_min |= c != -5;
        }
        distinct |= v != first;
    }
    assert!(above_min);
    assert!(distinct);
    let one = Vec3::rand_range(&mut rng, 41, 42);
    assert_eq!(one, Vec3::new(41, 41, 41));
}

#[test]
fn rand_draws_below_one() {
    let mut rng = StdRng::seed_from_u64(5);
    let mut nonzero = false;
    for _ in 0..200 {
        let v = Vec3::rand(&mut rng);
        for c in [v.x(), v.y(), v.z()] {
            assert!(0 <= c && c < ONE);
            nonzero |= c != 0;
        }
    }
    assert!(nonzero);
}

#[test]
fn random_points_lie_inside_the_unit_sphere() {
    let mut rng = StdRng::seed_from_u64(3);
    for _ in 0..500 {
        let p = random_in_unit_sphere(&mut rng);
        assert!(p.length_squared() < ONE);
        for c in [p.x(), p.y(), p.z()] {
            assert!(-ONE <= c && c < ONE);
        }
    }
}

#[test]
fn random_unit_vectors_have_length_one() {
    let mut rng = StdRng::seed_from_u64(4);
    for _ in 0..500 {
        let u = random_unit_vector(&mut rng);
        let length = u.length();
        assert!(ONE - 1_000 <= length && length <= ONE + 1_000, "length {}", length);
    }
}

#[test]
fn random_hemisphere_points_lie_on_the_side_of_the_normal() {
    let mut rng = StdRng::seed_from_u64(9);
    let normal = Vec3::new(0, ONE, 0);
    let mut above = false;
    for _ in 0..500 {
        let p = random_in_hemisphere(&mut rng, normal);
        assert!(p.dot(normal) >= 0);
        assert!(p.length_squared() < ONE);
        above |= p.y() > 0;
    }
    assert!(above);
}

#[test]
fn direction_of_a_point_is_its_unit_vector() {
    assert_eq!(direction_of(Vec3::new(300_000_000, 400_000_000, 0)), Vec3::new(600_000_000, 800_000_000, 0));
    assert_eq!(direction_of(Vec3::new(0, 0, -5)), Vec3::new(0, 0, -ONE));
    assert_eq!(direction_of(Vec3::new(0, -ONE, 0)), Vec3::new(0, -ONE, 0));
}

#[test]
fn direction_of_the_centre_is_the_first_axis() {
    assert_eq!(direction_of(Vec3::new(0, 0, 0)), Vec3::new(ONE, 0, 0));
}

#[test]
fn toward_keeps_or_negates() {
    let normal = Vec3::new(0, ONE, 0);
    assert_eq!(toward(Vec3::new(ONE / 2, ONE / 4, 0), normal), Vec3::new(ONE / 2, ONE / 4, 0));
    assert_eq!(toward(Vec3::new(ONE / 2, -ONE / 4, 3), normal), Vec3::new(-ONE / 2, ONE / 4, -3));
    assert_eq!(toward(Vec3::new(ONE / 2, 0, 0), normal), Vec3::new(-ONE / 2, 0, 0));
    assert_eq!(toward(Vec3::new(0, 0, 0), normal), Vec3::new(0, 0, 0));
}

#[test]
fn norm_squared_is_exact() {
    assert_eq!(Vec3::new(1, 2, 3).norm_squared(), 14);
    assert_eq!(Vec3::new(-3 * ONE, 4 * ONE, 0).norm_squared(), 25 * (ONE as u128) * (ONE as u128));
    assert_eq!(Vec3::new(i64::MIN, i64::MIN, i64::MIN).norm_squared(), 3 * (1u128 << 126));
}

#[test]
fn text_reads_as_decimal_numbers() {
    assert_eq!(Vec3::new(ONE / 2, 700_000_000, ONE).text(), "0.5 0.7 1");
    assert_eq!(Vec3::new(0, 0, 0).text(), "0 0 0");
    assert_eq!(Vec3::new(-ONE / 4, -3 * ONE, 1).text(), "-0.25 -3 0.000000001");
    assert_eq!(Vec3::new(-1, 1_234_567_890, 100_500_000_000).text(), "-0.000000001 1.23456789 100.5");
    assert_eq!(
        Vec3::new(i64::MAX, i64::MIN, 10 * ONE).text(),
        "9223372036.854775807 -9223372036.854775808 10"
    );
    assert_eq!(Vec3::new(ONE / 2, 700_000_000, ONE).text_bytes(), b"0.5 0.7 1".to_vec());
}
