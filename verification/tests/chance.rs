use bots_in_a_dish::chance::{logarithm_bounds, mutation_chance_met, power_is_below};

#[test]
fn the_chance_is_one_over_the_logarithm() {
    // four bots: a half
    assert!(mutation_chance_met(4, 400_000));
    assert!(mutation_chance_met(4, 499_999));
    assert!(!mutation_chance_met(4, 500_000));
    // eight bots: a third
    assert!(mutation_chance_met(8, 333_333));
    assert!(!mutation_chance_met(8, 333_334));
    // sixteen bots: a quarter
    assert!(mutation_chance_met(16, 249_999));
    assert!(!mutation_chance_met(16, 250_000));
}

#[test]
fn the_logarithm_is_not_rounded() {
    // three bots: 0.630929...
    assert!(mutation_chance_met(3, 630_929));
    assert!(!mutation_chance_met(3, 630_930));
    assert!(!mutation_chance_met(3, 999_999));
    // five bots: 0.430676...
    assert!(mutation_chance_met(5, 430_676));
    assert!(!mutation_chance_met(5, 430_677));
    assert!(!mutation_chance_met(5, 450_000));
    // seven bots: 0.356207...
    assert!(mutation_chance_met(7, 356_207));
    assert!(!mutation_chance_met(7, 356_208));
    assert!(!mutation_chance_met(7, 499_999));
    // five hundred bots: 0.111535...
    assert!(mutation_chance_met(500, 111_535));
    assert!(!mutation_chance_met(500, 111_536));
    assert!(!mutation_chance_met(500, 124_999));
    // a thousand bots: 0.100343...
    assert!(mutation_chance_met(1000, 100_343));
    assert!(!mutation_chance_met(1000, 100_344));
}

#[test]
fn one_bot_alone_always_mutates() {
    assert!(mutation_chance_met(1, 0));
    assert!(mutation_chance_met(1, 999_999));
    assert!(mutation_chance_met(1, 1_000_000));
    assert!(mutation_chance_met(1, i64::MAX));
}

#[test]
fn two_bots_mutate_on_every_draw_below_one() {
    assert!(mutation_chance_met(2, 0));
    assert!(mutation_chance_met(2, 999_999));
    assert!(!mutation_chance_met(2, 1_000_000));
}

#[test]
fn a_draw_that_is_not_positive_is_below_every_chance() {
    assert!(mutation_chance_met(500, 0));
    assert!(mutation_chance_met(500, -1));
    assert!(mutation_chance_met(usize::MAX, i64::MIN));
}

#[test]
fn a_draw_of_one_or_more_is_below_no_chance_of_many() {
    assert!(!mutation_chance_met(3, 1_000_000));
    assert!(!mutation_chance_met(500, i64::MAX));
}

#[test]
fn the_closest_call_is_decided_by_long_multiplication() {
    // the greatest 64-bit number has a logarithm a hair below 64, and
    // 15625 times 64 is a million
    let n = u64::MAX as usize;
    assert!(mutation_chance_met(n, 15_625));
    assert!(!mutation_chance_met(n, 15_626));
    let half = (1u64 << 63) as usize;
    assert!(mutation_chance_met(half, 15_873));
    assert!(!mutation_chance_met(half, 15_874));
}

#[test]
fn long_multiplication_compares_a_power_with_a_power_of_two() {
    assert!(power_is_below(3, 40, 1));
    assert!(!power_is_below(3, 41, 1));
    assert!(power_is_below(3, 80, 2));
    assert!(!power_is_below(3, 81, 2));
    assert!(power_is_below(2, 127, 2));
    assert!(!power_is_below(2, 128, 2));
    assert!(power_is_below(u64::MAX, 3, 3));
    assert!(!power_is_below(u64::MAX, 3, 2));
    assert!(power_is_below(1, 1_000_000, 1));
    assert!(power_is_below(7, 0, 1));
    assert!(power_is_below(u64::MAX, 1, 1));
    assert!(!power_is_below(u64::MAX, 2, 1));
}

#[test]
fn the_bounds_hold_the_logarithm_between_them() {
    let scale = (1u64 << 40) as f64;
    for n in [2u64, 3, 5, 7, 100, 500, 65_537, u64::MAX / 3] {
        let (lower, upper) = logarithm_bounds(n).unwrap();
        assert!(lower < upper);
        assert!(upper - lower <= 3);
        let log = (n as f64).log2();
        assert!((lower as f64) / scale <= log + 1e-9);
        assert!(log - 1e-9 <= (upper as f64) / scale);
    }
    assert_eq!(logarithm_bounds(2), Some((1 << 40, (1 << 40) + 1)));
    assert_eq!(logarithm_bounds(1), Some((0, 1)));
}
