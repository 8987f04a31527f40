use hydradx_pallets::bonds::FeeRate;

fn rate(numerator: u64, denominator: u64) -> FeeRate {
    FeeRate::new(numerator, denominator).expect("a rate between zero and one")
}

#[test]
fn one_percent_of_a_hundred_is_one() {
    let fee = rate(1, 100).mul_ceil(100);
    assert_eq!(fee, 1);
    assert_eq!(100 - fee, 99);
}

#[test]
fn one_percent_of_a_hundred_and_one_rounds_up_to_two() {
    let fee = rate(1, 100).mul_ceil(101);
    assert_eq!(fee, 2);
    assert_eq!(101 - fee, 99);
}

#[test]
fn half_a_percent_of_two_hundred_is_one() {
    assert_eq!(rate(5, 1000).mul_ceil(200), 1);
    assert_eq!(rate(5_000, 1_000_000).mul_ceil(200), 1);
}

#[test]
fn any_remainder_costs_a_whole_unit() {
    assert_eq!(rate(1, 1_000_000).mul_ceil(1), 1);
    assert_eq!(rate(1, 3).mul_ceil(10), 4);
    assert_eq!(rate(2, 3).mul_ceil(10), 7);
    assert_eq!(rate(1, 3).mul_ceil(9), 3);
}

#[test]
fn nothing_is_taken_from_nothing() {
    assert_eq!(rate(1, 100).mul_ceil(0), 0);
    assert_eq!(rate(1, 1).mul_ceil(0), 0);
}

#[test]
fn zero_rate_takes_nothing() {
    assert_eq!(FeeRate::zero().mul_ceil(u128::MAX), 0);
    assert_eq!(rate(0, 7).mul_ceil(12_345), 0);
    assert_eq!(FeeRate::zero().numerator(), 0);
    assert_eq!(FeeRate::zero().denominator(), 1);
}

#[test]
fn full_rate_takes_everything() {
    assert_eq!(rate(1, 1).mul_ceil(u128::MAX), u128::MAX);
    assert_eq!(rate(u64::MAX, u64::MAX).mul_ceil(u128::MAX), u128::MAX);
    assert_eq!(rate(9, 9).mul_ceil(77), 77);
}

#[test]
fn largest_amounts_do_not_overflow() {
    // u128::MAX = 3 * 113427455640312821154458202477256070485, so a third is exact.
    assert_eq!(rate(1, 3).mul_ceil(u128::MAX), 113427455640312821154458202477256070485);
    assert_eq!(rate(1, 2).mul_ceil(u128::MAX), 1u128 << 127);
    let big = u64::MAX;
    // (d - 1) / d of u128::MAX, with d = 2^64 - 1: u128::MAX = d * (2^64 + 1).
    assert_eq!(rate(big - 1, big).mul_ceil(u128::MAX), (big as u128 - 1) * ((1u128 << 64) + 1));
}

#[test]
fn fee_is_the_least_whole_amount_that_covers_the_rate() {
    let cases: [(u64, u64, u128); 6] =
        [(1, 100, 101), (3, 7, 1_000), (5, 1000, 200), (999_999, 1_000_000, 17), (1, 3, 2), (7, 8, 1)];
    for (n, d, amount) in cases {
        let fee = rate(n, d).mul_ceil(amount);
        assert!(fee * d as u128 >= amount * n as u128);
        assert!(fee == 0 || (fee - 1) * (d as u128) < amount * n as u128);
        assert!(fee <= amount);
    }
}

#[test]
fn rates_outside_the_unit_interval_are_refused() {
    assert!(FeeRate::new(1, 0).is_none());
    assert!(FeeRate::new(0, 0).is_none());
    assert!(FeeRate::new(2, 1).is_none());
    assert!(FeeRate::new(101, 100).is_none());
    assert!(FeeRate::new(0, 1).is_some());
    assert!(FeeRate::new(100, 100).is_some());
}

#[test]
fn a_rate_keeps_its_parts() {
    let r = rate(5, 1000);
    assert_eq!(r.numerator(), 5);
    assert_eq!(r.denominator(), 1000);
}

#[test]
fn parts_in_a_million_and_percent_name_the_same_rates() {
    assert_eq!(FeeRate::from_percent(1).mul_ceil(100), 1);
    assert_eq!(FeeRate::from_percent(1).mul_ceil(101), 2);
    assert_eq!(FeeRate::from_parts(10_000).mul_ceil(101), 2);
    assert_eq!(FeeRate::from_parts(5_000).mul_ceil(200), 1);
    assert_eq!(FeeRate::from_parts(5_000).mul_ceil(201), 2);
    assert_eq!((FeeRate::from_parts(5_000).numerator(), FeeRate::from_parts(5_000).denominator()), (5_000, 1_000_000));
    assert_eq!((FeeRate::from_percent(7).numerator(), FeeRate::from_percent(7).denominator()), (7, 100));
}

#[test]
fn parts_and_percent_beyond_the_whole_are_the_whole() {
    assert_eq!(FeeRate::from_parts(1_000_001).mul_ceil(77), 77);
    assert_eq!(FeeRate::from_parts(u32::MAX).numerator(), 1_000_000);
    assert_eq!(FeeRate::from_percent(101).mul_ceil(77), 77);
    assert_eq!(FeeRate::from_percent(u32::MAX).numerator(), 100);
    assert_eq!(FeeRate::from_percent(100).mul_ceil(77), 77);
    assert_eq!(FeeRate::from_parts(0).mul_ceil(77), 0);
}
