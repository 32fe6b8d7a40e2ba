use lumen_trace::fixed::{isqrt, minus, negate, over, plus, saturate, sqrt, times, LIMIT, ONE};
use lumen_trace::utils::clamp;

#[test]
fn sums_and_differences_are_exact_in_range() {
    assert_eq!(plus(ONE, ONE / 2), 1_500_000_000);
    assert_eq!(minus(ONE, 3 * ONE), -2 * ONE);
    assert_eq!(negate(ONE / 4), -250_000_000);
}

#[test]
fn sums_saturate_at_the_limit() {
    assert_eq!(plus(i64::MAX, 1), LIMIT);
    assert_eq!(plus(i64::MIN, -1), -LIMIT);
    assert_eq!(minus(-LIMIT, 5), -LIMIT);
    assert_eq!(negate(i64::MIN), LIMIT);
    assert_eq!(saturate(i128::MAX), LIMIT);
    assert_eq!(saturate(i128::MIN), -LIMIT);
    assert_eq!(saturate(-7), -7);
}

#[test]
fn products_round_toward_zero() {
    assert_eq!(times(1_500_000_000, 2 * ONE), 3 * ONE);
    assert_eq!(times(ONE / 2, ONE / 2), ONE / 4);
    assert_eq!(times(3, 500_000_000), 1);
    assert_eq!(times(-3, 500_000_000), -1);
    assert_eq!(times(3, -500_000_000), -1);
    assert_eq!(times(-3, -500_000_000), 1);
    assert_eq!(times(1, 1), 0);
    assert_eq!(times(0, LIMIT), 0);
}

#[test]
fn products_saturate() {
    assert_eq!(times(LIMIT, 2 * ONE), LIMIT);
    assert_eq!(times(LIMIT, -2 * ONE), -LIMIT);
    assert_eq!(times(i64::MIN, i64::MIN), LIMIT);
    assert_eq!(times(i64::MIN, ONE), -LIMIT);
}

#[test]
fn quotients_round_toward_zero() {
    assert_eq!(over(ONE, 4 * ONE), 250_000_000);
    assert_eq!(over(ONE, 3 * ONE), 333_333_333);
    assert_eq!(over(-ONE, 3 * ONE), -333_333_333);
    assert_eq!(over(ONE, -3 * ONE), -333_333_333);
    assert_eq!(over(-ONE, -3 * ONE), 333_333_333);
    assert_eq!(over(0, -5), 0);
    assert_eq!(over(7 * ONE, ONE), 7 * ONE);
}

#[test]
fn quotients_saturate() {
    assert_eq!(over(LIMIT, 1), LIMIT);
    assert_eq!(over(-LIMIT, 1), -LIMIT);
    assert_eq!(over(i64::MIN, -1), LIMIT);
}

#[test]
fn square_roots_round_down() {
    assert_eq!(sqrt(4 * ONE), 2 * ONE);
    assert_eq!(sqrt(ONE / 4), ONE / 2);
    assert_eq!(sqrt(2 * ONE), 1_414_213_562);
    assert_eq!(sqrt(0), 0);
    assert_eq!(sqrt(1), 31_622);
    assert_eq!(sqrt(-ONE), 0);
    assert_eq!(sqrt(LIMIT), 96_038_388_349_944);
}

#[test]
fn integer_square_roots_round_down() {
    assert_eq!(isqrt(0), 0);
    assert_eq!(isqrt(1), 1);
    assert_eq!(isqrt(15), 3);
    assert_eq!(isqrt(16), 4);
    assert_eq!(isqrt(17), 4);
    assert_eq!(isqrt(u128::MAX), u64::MAX);
    assert_eq!(isqrt(1u128 << 126), 1u64 << 63);
}

#[test]
fn clamp_holds_a_value_between_its_bounds() {
    assert_eq!(clamp(5, 0, 10), 5);
    assert_eq!(clamp(-5, 0, 10), 0);
    assert_eq!(clamp(15, 0, 10), 10);
    assert_eq!(clamp(0, 0, 10), 0);
    assert_eq!(clamp(10, 0, 10), 10);
}

#[test]
fn clamp_gives_the_lower_bound_first_where_the_bounds_cross() {
    assert_eq!(clamp(1, 5, 3), 5);
    assert_eq!(clamp(7, 5, 3), 3);
    assert_eq!(clamp(4, 5, 3), 5);
}
