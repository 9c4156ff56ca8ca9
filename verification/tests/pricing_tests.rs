use arb_arbos::pricing_formulas::{
    adjusted_price, adjusted_price_v1, allocation_fraction, apply_price_change, cap_spending, units_to_allocate,
    units_to_allocate_wrapping,
};
use arb_arbos::word::{I256, U256};

fn u(x: u64) -> U256 {
    U256::from_u64(x)
}

fn i(x: i64) -> I256 {
    if x >= 0 {
        I256::from_u64(x as u64)
    } else {
        neg(x.unsigned_abs())
    }
}

#[test]
fn allocation_fraction_is_the_covered_time() {
    assert_eq!(allocation_fraction(50, 100, 150), (50, 100));
    assert_eq!(allocation_fraction(100, 100, 100), (1, 1));
    assert_eq!(allocation_fraction(0, 0, 5), (0, 5));
}

#[test]
fn units_to_allocate_rounds_down_and_saturates() {
    assert_eq!(units_to_allocate(1000, 50, 150), 333);
    assert_eq!(units_to_allocate(1000, 1, 1), 1000);
    assert_eq!(units_to_allocate(u64::MAX, 2, 3), u64::MAX / 3);
    assert_eq!(units_to_allocate_wrapping(u64::MAX, 2, 3), (u64::MAX - 1) / 3);
    assert_eq!(units_to_allocate_wrapping(1000, 50, 150), 333);
    // the product wraps modulo 2^64
    assert_eq!(units_to_allocate_wrapping(1 << 63, 2, 4), 0);
}

#[test]
fn spending_is_capped() {
    assert_eq!(cap_spending(u(5000), u(2), 1000, 10_000), u(2000));
    assert_eq!(cap_spending(u(5000), u(2), 1000, 0), u(5000));
    assert_eq!(cap_spending(u(1000), u(2), 1000, 10_000), u(1000));
    assert_eq!(cap_spending(u(5000), u(3), 1000, 5_000), u(1500));
}

#[test]
fn price_changes_stay_in_range() {
    assert_eq!(apply_price_change(u(100), i(-9)), u(91));
    assert_eq!(apply_price_change(u(100), i(7)), u(107));
    assert_eq!(apply_price_change(u(5), i(-9)), U256::zero());
    assert_eq!(apply_price_change(U256::max_value(), i(1)), U256::max_value());
    assert_eq!(apply_price_change(u(5), I256::min_value()), U256::zero());
}

#[test]
fn adjusted_price_follows_the_surplus() {
    // inertia units 100, desired -5, actual 5: change -10000 / 1100, rounded down, is -10
    assert_eq!(adjusted_price(u(100), i(5000), i(0), 10, u(1000), 1000), u(90));
    // desired -5000 / 96000000 rounds down to -1: change (-1 - 5) * 1000 / 9601000 rounds down to -1
    assert_eq!(adjusted_price(u(100), i(5000), i(0), 10, u(96_000_000), 1000), u(99));
    // no change where the surplus is zero and steady
    assert_eq!(adjusted_price(u(100), i(0), i(0), 10, u(1000), 1000), u(100));
    // a deficit raises the price: desired 5, actual -5, change 10000 / 1100 = 9
    assert_eq!(adjusted_price(u(100), i(-5000), i(0), 10, u(1000), 1000), u(109));
}

#[test]
fn first_version_price_formula() {
    // (11670 * 999 - 20000 * 1000) / (1000 * 433), rounded down, is -20
    assert_eq!(adjusted_price_v1(u(100), i(11670), i(20000), 10, u(1000), 333), u(80));
    // no equilibration units: no change
    assert_eq!(adjusted_price_v1(u(100), i(11670), i(20000), 10, U256::zero(), 333), u(100));
}

/// The signed word `-x`, for `x` above zero.
fn neg(x: u64) -> I256 {
    I256::from_raw(U256 { l0: 0u64.wrapping_sub(x), l1: u64::MAX, l2: u64::MAX, l3: u64::MAX })
}
