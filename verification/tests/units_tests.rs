use glowgrid::units::{
    add_units, clamp_i32, cos_units, mul_units, ratio_units, round_units, sin_units, sub_units,
    HALF_PI_UNITS, PI_UNITS, UNIT,
};
use glowgrid::vector::Vector2;

#[test]
fn scalar_multiplication_rescales_by_one_unit() {
    assert_eq!(mul_units(2 * UNIT, 3 * UNIT), 6 * UNIT);
    assert_eq!(mul_units(UNIT / 2, UNIT / 2), UNIT / 4);
    assert_eq!(mul_units(-2 * UNIT, 3 * UNIT), -6 * UNIT);
    assert_eq!(mul_units(0, 123_456), 0);
}

#[test]
fn scalar_multiplication_rounds_toward_zero() {
    assert_eq!(mul_units(1, 1), 0);
    assert_eq!(mul_units(-1, 1), 0);
    assert_eq!(mul_units(999_999, 1), 0);
}

#[test]
fn addition_saturates_at_the_ends() {
    assert_eq!(add_units(i64::MAX, 1), i64::MAX);
    assert_eq!(add_units(i64::MIN, -1), i64::MIN);
    assert_eq!(add_units(2, 3), 5);
    assert_eq!(sub_units(i64::MIN, 1), i64::MIN);
    assert_eq!(sub_units(7, 3), 4);
}

#[test]
fn rounding_goes_to_the_nearest_whole_unit() {
    assert_eq!(round_units(0), 0);
    assert_eq!(round_units(499_999), 0);
    assert_eq!(round_units(500_000), 1);
    assert_eq!(round_units(1_500_000), 2);
    assert_eq!(round_units(-499_999), 0);
    assert_eq!(round_units(-500_000), -1);
    assert_eq!(round_units(-1_500_000), -2);
}

#[test]
fn clamping_into_i32_saturates() {
    assert_eq!(clamp_i32(5), 5);
    assert_eq!(clamp_i32(i64::MAX), i32::MAX);
    assert_eq!(clamp_i32(i64::MIN), i32::MIN);
}

#[test]
fn ratio_is_a_fixed_point_fraction() {
    assert_eq!(ratio_units(1, 2), UNIT / 2);
    assert_eq!(ratio_units(2, 2), UNIT);
    assert_eq!(ratio_units(0, 5), 0);
    assert_eq!(ratio_units(UNIT / 4, UNIT), UNIT / 4);
}

#[test]
fn trigonometry_stays_within_one_unit() {
    let mut a: i64 = -7_000_000;
    while a <= 7_000_000 {
        let s = sin_units(a);
        let c = cos_units(a);
        assert!(-UNIT <= s && s <= UNIT);
        assert!(-UNIT <= c && c <= UNIT);
        a += 97_003;
    }
    assert_eq!(sin_units(0), 0);
    assert!(sin_units(HALF_PI_UNITS) > 9 * UNIT / 10);
    assert!(sin_units(PI_UNITS + HALF_PI_UNITS) < -9 * UNIT / 10);
}

#[test]
fn polar_offsets_stay_within_the_magnitude() {
    let mut a: i64 = 0;
    while a < 7_000_000 {
        let v = Vector2::from_polar(a, 2 * UNIT);
        assert!(-2 * UNIT <= v.x && v.x <= 2 * UNIT);
        assert!(-2 * UNIT <= v.y && v.y <= 2 * UNIT);
        a += 313_043;
    }
}
