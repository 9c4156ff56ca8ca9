//! The arithmetic of an L1 pricing update: which share of the collected
//! units an update takes, the cap on what a batch poster is credited, and
//! how the price per unit moves.
use vstd::prelude::*;

use crate::multigas::{sat_u64, u64_max};
use crate::word::{
    clamp_i256, clamp_u256, i256_max, i256_min, i256_saturating_mul, i256_saturating_neg, i256_saturating_sub,
    i256_wrapping_div, p256, u256_div, u256_max, u256_saturating_add, u256_saturating_mul, u256_saturating_sub,
    u256_wrapping_add, wrapping_div_i256, I256, U256,
};

verus! {

/// Basis points in one.
pub const ONE_IN_BIPS: u64 = 10_000;

/// The last update time that an update measures from: one before the update
/// time where none is stored yet (zero) and the update time is positive.
pub open spec fn effective_last_update(stored: int, update_time: int) -> int {
    if stored == 0 && update_time > 0 {
        update_time - 1
    } else {
        stored
    }
}

/// The numerator of the share of units and funds that an update takes: the
/// time it covers, or 1 where no time passed up to now.
pub open spec fn alloc_numerator(last: int, update_time: int, current_time: int) -> int {
    if current_time - last == 0 {
        1
    } else {
        update_time - last
    }
}

/// The denominator of that share: the time since the last update, or 1
/// where no time passed.
pub open spec fn alloc_denominator(last: int, update_time: int, current_time: int) -> int {
    if current_time - last == 0 {
        1
    } else {
        current_time - last
    }
}

/// The units an update takes: `units * num / den`, the product stopping at `u64::MAX`.
pub open spec fn units_allocated(units: int, num: int, den: int) -> int {
    sat_u64(units * num) as int / den
}

/// The smaller of two numbers.
pub open spec fn min_of(a: int, b: int) -> int {
    if a <= b {
        a
    } else {
        b
    }
}

/// The cap on what a poster is credited: `base_fee * units * bips / 10000`,
/// each product stopping at the largest word.
pub open spec fn spending_cap(base_fee: int, units: int, bips: int) -> int {
    clamp_u256(clamp_u256(base_fee * units) * bips) / ONE_IN_BIPS as int
}

/// What a poster is credited for `wei` spent, where the cap is `bips` basis
/// points of the base fee per unit (no cap where `bips` is zero).
pub open spec fn capped_spending(wei: int, base_fee: int, units: int, bips: int) -> int {
    if bips != 0 && spending_cap(base_fee, units, bips) < wei {
        spending_cap(base_fee, units, bips)
    } else {
        wei
    }
}

/// A word, or the largest signed word where it is larger.
pub open spec fn signed_of_word(x: int) -> int {
    if x <= i256_max() {
        x
    } else {
        i256_max()
    }
}

/// The price after a change: the price plus the change, between zero and
/// the largest word, and zero for the most negative change.
pub open spec fn price_after_change(price: int, change: int) -> int {
    if change == i256_min() {
        0
    } else {
        clamp_u256(price + change)
    }
}

/// The change of the price per unit after an update that took `units` (at
/// least one) units: the gap between the wanted and the actual rate at which
/// the surplus changes, times the units, over the units plus the inertia
/// units; every step in signed 256-bit arithmetic, every quotient rounded
/// down.
pub open spec fn price_change(surplus: int, old_surplus: int, inertia: int, equil_units: int, units: int) -> int {
    let inertia_units = if inertia == 0 {
        equil_units
    } else {
        equil_units / inertia
    };
    let alloc_plus_inert = signed_of_word((inertia_units + units) % p256());
    let equil = signed_of_word(equil_units);
    let desired = if equil == 0 {
        0
    } else {
        clamp_i256(-surplus) / equil
    };
    let actual = clamp_i256(surplus - old_surplus) / units;
    if alloc_plus_inert == 0 {
        0
    } else {
        clamp_i256(clamp_i256(desired - actual) * units) / alloc_plus_inert
    }
}

/// 2^180, a bound under which the price arithmetic never leaves signed
/// 256-bit range.
pub open spec fn p180() -> int {
    0x1000000000000000000000000000000000000000000000int
}

/// A quotient rounded down by a divisor of at least one lies between zero
/// and the number divided.
proof fn lemma_div_within(x: int, d: int, b: int)
    requires
        -b < x < b,
        d >= 1,
    ensures
        -b < x / d < b,
{
    if x >= 0 {
        assert(0 <= x / d <= x) by (nonlinear_arith)
            requires
                x >= 0,
                d >= 1,
        ;
    } else {
        vstd::arithmetic::div_mod::lemma_fundamental_div_mod(x, d);
        assert(x <= x / d < 0) by (nonlinear_arith)
            requires
                x < 0,
                d >= 1,
                x == d * (x / d) + x % d,
                0 <= x % d < d,
        ;
    }
}

/// Law: the price moves by the gap between the rate at which the surplus
/// should fall (all of it over the equilibration units) and the rate at
/// which it moved since the last update (its change over the units taken),
/// times the units taken, over those units plus the inertia units (the
/// equilibration units over the inertia, or all of them where the inertia
/// is zero); every quotient rounded down. So where the surplus did not move
/// since the last update only the first rate counts, and a surplus that grew
/// by `k` a unit lowers the gap by exactly `k`. This where the amounts stay
/// below 2^180, so that no step leaves signed 256-bit range.
pub proof fn law_price_change_follows_surplus_move(
    surplus: int,
    old_surplus: int,
    inertia: int,
    equil_units: int,
    units: int,
    k: int,
)
    requires
        -p180() < surplus < p180(),
        -p180() < old_surplus < p180(),
        0 < equil_units < p180(),
        0 <= inertia < 0x1_0000_0000_0000_0000,
        0 < units < 0x1_0000_0000_0000_0000,
    ensures
        ({
            let iu = if inertia == 0 {
                equil_units
            } else {
                equil_units / inertia
            };
            let change = price_change(surplus, old_surplus, inertia, equil_units, units);
            &&& change == (((-surplus) / equil_units - (surplus - old_surplus) / units) * units) / (iu + units)
            &&& surplus == old_surplus ==> change == (((-surplus) / equil_units) * units) / (iu + units)
            &&& surplus - old_surplus == k * units ==> change == (((-surplus) / equil_units - k) * units) / (iu + units)
        }),
{
    let b = p180();
    let iu = if inertia == 0 {
        equil_units
    } else {
        equil_units / inertia
    };
    assert(0 <= iu <= equil_units) by {
        if inertia != 0 {
            lemma_div_within(equil_units, inertia, b);
            assert(iu <= equil_units) by (nonlinear_arith)
                requires
                    equil_units > 0,
                    inertia >= 1,
                    iu == equil_units / inertia,
            ;
        }
    }
    assert((iu + units) % p256() == iu + units);
    let desired = (-surplus) / equil_units;
    lemma_div_within(-surplus, equil_units, b);
    let d = surplus - old_surplus;
    lemma_div_within(d, units, 2 * b);
    let actual = d / units;
    let gap = desired - actual;
    assert(-3 * b < gap < 3 * b);
    assert(-3 * b * 0x1_0000_0000_0000_0000 < gap * units < 3 * b * 0x1_0000_0000_0000_0000) by (nonlinear_arith)
        requires
            -3 * b < gap < 3 * b,
            0 < units < 0x1_0000_0000_0000_0000,
            b > 0,
    ;
    if d == k * units {
        vstd::arithmetic::div_mod::lemma_div_multiples_vanish(k, units);
        assert((k * units) / units == k) by {
            assert(units * k == k * units) by (nonlinear_arith);
        }
    }
}

/// The change of the price per unit as the first version computed it:
/// `(surplus * (equil - 1) - old_surplus * equil) / (equil * (equil / inertia + units))`,
/// every step in signed 256-bit arithmetic.
pub open spec fn price_change_v1(surplus: int, old_surplus: int, inertia: int, equil_units: int, units: int) -> int {
    let equil = signed_of_word(equil_units);
    let inertia_units = if inertia == 0 {
        0
    } else {
        wrapping_div_i256(equil, inertia)
    };
    let alloc_plus_inert = clamp_i256(inertia_units + units);
    let denom = clamp_i256(equil * alloc_plus_inert);
    if denom == 0 {
        0
    } else {
        clamp_i256(clamp_i256(surplus * clamp_i256(equil - 1)) - clamp_i256(old_surplus * equil)) / denom
    }
}

/// For `a < 0 < b`: the quotient `t` of `-a` by `b`, negated, is `a / b`
/// (rounded down) where `b` divides `a`, and one less than it otherwise.
proof fn lemma_floor_from_trunc(a: int, b: int)
    requires
        a < 0 < b,
    ensures
        a <= (-((-a) / b)) * b <= 0,
        (-((-a) / b)) * b == a ==> a / b == -((-a) / b),
        (-((-a) / b)) * b != a ==> a / b == -((-a) / b) - 1,
{
    let n = -a;
    let q = n / b;
    let r = n % b;
    vstd::arithmetic::div_mod::lemma_fundamental_div_mod(n, b);
    assert(0 <= r < b);
    assert(n == b * q + r);
    assert(q >= 0) by (nonlinear_arith)
        requires
            n > 0,
            b > 0,
            q == n / b,
    ;
    assert((-q) * b == a + r) by (nonlinear_arith)
        requires
            n == b * q + r,
            a == -n,
    ;
    if r == 0 {
        vstd::arithmetic::div_mod::lemma_fundamental_div_mod_converse(a, b, -q, 0);
    } else {
        assert(a == (-q - 1) * b + (b - r)) by (nonlinear_arith)
            requires
                n == b * q + r,
                a == -n,
        ;
        vstd::arithmetic::div_mod::lemma_fundamental_div_mod_converse(a, b, -q - 1, b - r);
    }
}

/// `a / b` rounded down, for a positive `b`.
pub(crate) fn i256_floor_div(a: I256, b: I256) -> (r: I256)
    requires
        b.value() > 0,
    ensures
        r.value() == a.value() / b.value(),
{
    let t = i256_wrapping_div(a, b);
    if !a.is_negative() {
        return t;
    }
    proof {
        lemma_floor_from_trunc(a.value(), b.value());
        assert(t.value() == -((-a.value()) / b.value()));
    }
    let prod = i256_saturating_mul(t, b);
    proof {
        I256::lemma_value_range(a);
        assert(prod.value() == t.value() * b.value());
    }
    if a.lt(&prod) {
        proof {
            let (x, y) = (a.value(), b.value());
            vstd::arithmetic::div_mod::lemma_fundamental_div_mod(x, y);
            let q = x / y;
            assert(q >= x) by (nonlinear_arith)
                requires
                    x < 0,
                    y >= 1,
                    x == y * q + x % y,
                    0 <= x % y < y,
            ;
        }
        i256_saturating_sub(t, I256::one())
    } else {
        t
    }
}

/// The share of units and funds that an update takes, as (numerator,
/// denominator); the times must be in order.
pub fn allocation_fraction(last: u64, update_time: u64, current_time: u64) -> (r: (u64, u64))
    requires
        last <= update_time <= current_time,
    ensures
        r.0 == alloc_numerator(last as int, update_time as int, current_time as int),
        r.1 == alloc_denominator(last as int, update_time as int, current_time as int),
        r.0 <= r.1,
        0 < r.1,
{
    let num = update_time - last;
    let den = current_time - last;
    if den == 0 {
        (1, 1)
    } else {
        (num, den)
    }
}

/// The units an update takes out of `units`; never more than `units`.
pub fn units_to_allocate(units: u64, num: u64, den: u64) -> (r: u64)
    requires
        0 < den,
        num <= den,
    ensures
        r == units_allocated(units as int, num as int, den as int),
        r <= units,
{
    let product = match units.checked_mul(num) {
        Some(p) => p,
        None => u64::MAX,
    };
    proof {
        assert(units * num <= units * den) by (nonlinear_arith)
            requires
                num <= den,
        ;
        assert((units * den) / (den as int) == units) by (nonlinear_arith)
            requires
                0 < den,
        ;
        assert(product as int <= units * num);
        assert((product as int) / (den as int) <= (units * den) / (den as int)) by (nonlinear_arith)
            requires
                product as int <= units * den,
                0 < den,
        ;
    }
    product / den
}

/// The units an update takes out of `units` by the first version's rule:
/// `units * num / den` with the product taken modulo 2^64; never more than
/// `units`.
pub fn units_to_allocate_wrapping(units: u64, num: u64, den: u64) -> (r: u64)
    requires
        0 < den,
        num <= den,
    ensures
        r == ((units * num) % 0x1_0000_0000_0000_0000) / (den as int),
        r <= units,
{
    let product = units.wrapping_mul(num);
    proof {
        let u = units as int;
        let n = num as int;
        let d = den as int;
        let w = (u * n) % 0x1_0000_0000_0000_0000;
        assert(0 <= u * n <= u * d) by (nonlinear_arith)
            requires
                0 <= u,
                0 <= n <= d,
        ;
        assert(0 <= w <= u * n) by (nonlinear_arith)
            requires
                0 <= u * n,
                w == (u * n) % 0x1_0000_0000_0000_0000,
        ;
        assert(w / d <= (u * n) / d) by (nonlinear_arith)
            requires
                0 <= w <= u * n,
                0 < d,
        ;
        assert((u * n) / d <= u) by (nonlinear_arith)
            requires
                0 <= u * n <= u * d,
                0 < d,
        ;
    }
    product / den
}

/// What a poster is credited for `wei` spent, under a cap of `bips` basis
/// points of the base fee per unit.
pub fn cap_spending(wei: U256, base_fee: U256, units: u64, bips: u64) -> (r: U256)
    ensures
        r.value() == capped_spending(wei.value(), base_fee.value(), units as int, bips as int),
{
    if bips == 0 {
        return wei;
    }
    let cap = u256_div(
        u256_saturating_mul(u256_saturating_mul(base_fee, U256::from_u64(units)), U256::from_u64(bips)),
        U256::from_u64(ONE_IN_BIPS),
    );
    if cap.lt(&wei) {
        cap
    } else {
        wei
    }
}

/// `price` moved by `change`, between zero and the largest word.
pub fn apply_price_change(price: U256, change: I256) -> (r: U256)
    ensures
        r.value() == price_after_change(price.value(), change.value()),
{
    if change.ge(&I256::zero()) {
        u256_saturating_add(price, change.to_u256_saturating())
    } else {
        let abs_change = crate::word::i256_wrapping_neg(change).to_u256_saturating();
        u256_saturating_sub(price, abs_change)
    }
}

/// The price per unit after an update that took `units` units.
pub fn adjusted_price(price: U256, surplus: I256, old_surplus: I256, inertia: u64, equil_units: U256, units: u64) -> (r: U256)
    requires
        units > 0,
    ensures
        r.value() == price_after_change(
            price.value(),
            price_change(surplus.value(), old_surplus.value(), inertia as int, equil_units.value(), units as int),
        ),
{
    let inertia_units = if inertia == 0 {
        equil_units
    } else {
        u256_div(equil_units, U256::from_u64(inertia))
    };
    let alloc_plus_inert = u256_wrapping_add(inertia_units, U256::from_u64(units));
    let equil_signed = I256::from_u256_saturating(equil_units);
    let desired_derivative = if equil_signed.is_zero() {
        I256::zero()
    } else {
        i256_floor_div(i256_saturating_neg(surplus), equil_signed)
    };
    let units_signed = I256::from_u64(units);
    let actual_derivative = i256_floor_div(i256_saturating_sub(surplus, old_surplus), units_signed);
    let alloc_plus_inert_signed = I256::from_u256_saturating(alloc_plus_inert);
    let change = if alloc_plus_inert_signed.is_zero() {
        I256::zero()
    } else {
        i256_floor_div(
            i256_saturating_mul(i256_saturating_sub(desired_derivative, actual_derivative), units_signed),
            alloc_plus_inert_signed,
        )
    };
    apply_price_change(price, change)
}

/// The price per unit after an update that took `units` units, as the first
/// version computed it.
pub fn adjusted_price_v1(price: U256, surplus: I256, old_surplus: I256, inertia: u64, equil_units: U256, units: u64) -> (r: U256)
    ensures
        r.value() == price_after_change(
            price.value(),
            price_change_v1(surplus.value(), old_surplus.value(), inertia as int, equil_units.value(), units as int),
        ),
{
    let equil_signed = I256::from_u256_saturating(equil_units);
    let inertia_units = if inertia == 0 {
        I256::zero()
    } else {
        i256_wrapping_div(equil_signed, I256::from_u64(inertia))
    };
    let alloc_plus_inert = crate::word::i256_saturating_add(inertia_units, I256::from_u64(units));
    let denom = i256_saturating_mul(equil_signed, alloc_plus_inert);
    let change = if denom.is_zero() {
        I256::zero()
    } else {
        let numer = i256_saturating_sub(
            i256_saturating_mul(surplus, i256_saturating_sub(equil_signed, I256::one())),
            i256_saturating_mul(old_surplus, equil_signed),
        );
        i256_floor_div(numer, denom)
    };
    apply_price_change(price, change)
}

} // verus!
