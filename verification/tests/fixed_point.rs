use bots_in_a_dish::fixed::{clamp, floor_log2, fx_mul, half, sat_add, sat_sub, UNIT};
use bots_in_a_dish::vec2::Vec2;

#[test]
fn unit_is_a_million() {
    assert_eq!(UNIT, 1_000_000);
}

#[test]
fn sums_saturate_at_both_ends() {
    assert_eq!(sat_add(2, 3), 5);
    assert_eq!(sat_add(i64::MAX, 1), i64::MAX);
    assert_eq!(sat_add(i64::MIN, -1), i64::MIN);
    assert_eq!(sat_sub(2, 3), -1);
    assert_eq!(sat_sub(i64::MIN, 1), i64::MIN);
    assert_eq!(sat_sub(i64::MAX, -1), i64::MAX);
    assert_eq!(sat_sub(0, i64::MIN), i64::MAX);
}

#[test]
fn products_are_truncated_toward_zero() {
    assert_eq!(fx_mul(2_500_000, 3_000_000), 7_500_000);
    assert_eq!(fx_mul(-2_500_000, 3_000_000), -7_500_000);
    assert_eq!(fx_mul(1, 500_000), 0);
    assert_eq!(fx_mul(-1, 500_000), 0);
    assert_eq!(fx_mul(3, 500_000), 1);
    assert_eq!(fx_mul(-3, 500_000), -1);
    assert_eq!(fx_mul(0, i64::MAX), 0);
}

#[test]
fn products_saturate() {
    assert_eq!(fx_mul(i64::MAX, 2_000_000), i64::MAX);
    assert_eq!(fx_mul(i64::MIN, 2_000_000), i64::MIN);
    assert_eq!(fx_mul(i64::MIN, -2_000_000), i64::MAX);
    assert_eq!(fx_mul(i64::MAX, UNIT), i64::MAX);
}

#[test]
fn halves_round_toward_zero() {
    assert_eq!(half(7), 3);
    assert_eq!(half(-7), -3);
    assert_eq!(half(800_000_000), 400_000_000);
    assert_eq!(half(0), 0);
}

#[test]
fn clamp_bounds_a_value() {
    assert_eq!(clamp(5, 0, 10), 5);
    assert_eq!(clamp(-5, 0, 10), 0);
    assert_eq!(clamp(15, 0, 10), 10);
    assert_eq!(clamp(0, 0, 10), 0);
    assert_eq!(clamp(10, 0, 10), 10);
}

#[test]
fn clamp_tests_the_lower_bound_first() {
    assert_eq!(clamp(5, 10, 0), 10);
    assert_eq!(clamp(20, 10, 0), 0);
}

#[test]
fn logarithm_is_rounded_down() {
    assert_eq!(floor_log2(1), 0);
    assert_eq!(floor_log2(2), 1);
    assert_eq!(floor_log2(3), 1);
    assert_eq!(floor_log2(4), 2);
    assert_eq!(floor_log2(7), 2);
    assert_eq!(floor_log2(8), 3);
    assert_eq!(floor_log2(500), 8);
    assert_eq!(floor_log2(1 << 63), 63);
    assert_eq!(floor_log2(u64::MAX), 63);
}

#[test]
fn vectors_add_subtract_and_scale() {
    let a = Vec2::new(10_000_000, -4_000_000);
    let b = Vec2::new(1_500_000, 500_000);
    assert_eq!(a.plus(b), Vec2 { x: 11_500_000, y: -3_500_000 });
    assert_eq!(a.minus(b), Vec2 { x: 8_500_000, y: -4_500_000 });
    assert_eq!(b.times(2_500_000), Vec2 { x: 3_750_000, y: 1_250_000 });
    assert_eq!(Vec2::new(i64::MAX, 0).plus(Vec2::new(1, 1)), Vec2 { x: i64::MAX, y: 1 });
}

#[test]
fn a_point_is_inside_a_half_open_rectangle() {
    let screen = Vec2::new(800_000_000, 600_000_000);
    assert!(Vec2::new(0, 0).is_inside(screen));
    assert!(Vec2::new(799_999_999, 599_999_999).is_inside(screen));
    assert!(!Vec2::new(800_000_000, 5_000_000).is_inside(screen));
    assert!(!Vec2::new(5_000_000, 600_000_000).is_inside(screen));
    assert!(!Vec2::new(-1, 5_000_000).is_inside(screen));
    assert!(!Vec2::new(5_000_000, -1).is_inside(screen));
}

#[test]
fn nothing_is_inside_a_screen_of_no_width() {
    assert!(!Vec2::new(0, 0).is_inside(Vec2::new(0, 600_000_000)));
    assert!(!Vec2::new(0, 0).is_inside(Vec2::new(800_000_000, 0)));
}

#[test]
fn a_negative_size_mirrors_the_rectangle() {
    let size = Vec2::new(-10, -10);
    assert!(Vec2::new(0, 0).is_inside(size));
    assert!(Vec2::new(-9, -9).is_inside(size));
    assert!(!Vec2::new(-10, 0).is_inside(size));
    assert!(!Vec2::new(1, 0).is_inside(size));
}
