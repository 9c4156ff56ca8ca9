//! 256-bit words, signed and unsigned, as the EVM stores them, and the
//! arithmetic ArbOS does on them.
use vstd::prelude::*;

verus! {

/// 2^64.
pub open spec fn p64() -> int {
    0x1_0000_0000_0000_0000
}

/// 2^128.
pub open spec fn p128() -> int {
    0x1_0000_0000_0000_0000_0000_0000_0000_0000int
}

/// 2^192.
pub open spec fn p192() -> int {
    0x1_0000_0000_0000_0000_0000_0000_0000_0000_0000_0000_0000_0000int
}

/// 2^255.
pub open spec fn p255() -> int {
    0x8000_0000_0000_0000_0000_0000_0000_0000_0000_0000_0000_0000_0000_0000_0000_0000int
}

/// 2^256.
pub open spec fn p256() -> int {
    0x1_0000_0000_0000_0000_0000_0000_0000_0000_0000_0000_0000_0000_0000_0000_0000_0000int
}

/// The largest unsigned 256-bit value.
pub open spec fn u256_max() -> int {
    p256() - 1
}

/// The smallest signed 256-bit value.
pub open spec fn i256_min() -> int {
    -p255()
}

/// The largest signed 256-bit value.
pub open spec fn i256_max() -> int {
    p255() - 1
}

/// `x` clamped to the unsigned 256-bit range.
pub open spec fn clamp_u256(x: int) -> int {
    if x < 0 {
        0
    } else if x > u256_max() {
        u256_max()
    } else {
        x
    }
}

/// `x` clamped to the signed 256-bit range.
pub open spec fn clamp_i256(x: int) -> int {
    if x < i256_min() {
        i256_min()
    } else if x > i256_max() {
        i256_max()
    } else {
        x
    }
}

/// The absolute value.
pub open spec fn abs(x: int) -> int {
    if x < 0 {
        -x
    } else {
        x
    }
}

/// Division rounding toward zero.
pub open spec fn trunc_div(a: int, b: int) -> int {
    if (a >= 0) == (b >= 0) {
        abs(a) / abs(b)
    } else {
        -(abs(a) / abs(b))
    }
}

/// Signed 256-bit division as ArbOS does it: toward zero, where the one
/// quotient out of range (`MIN / -1`) wraps to `MIN`.
pub open spec fn wrapping_div_i256(a: int, b: int) -> int {
    if trunc_div(a, b) > i256_max() {
        i256_min()
    } else {
        trunc_div(a, b)
    }
}

/// An unsigned 256-bit word: four 64-bit limbs, least significant first.
#[derive(Clone, Copy, Debug, PartialEq, Eq, Structural)]
pub struct U256 {
    pub l0: u64,
    pub l1: u64,
    pub l2: u64,
    pub l3: u64,
}

/// A signed 256-bit word in two's complement.
#[derive(Clone, Copy, Debug, PartialEq, Eq, Structural)]
pub struct I256 {
    pub raw: U256,
}

/// A 20-byte account address.
#[derive(Clone, Copy, Debug)]
pub struct Address {
    pub bytes: [u8; 20],
}

/// A 32-byte hash.
#[derive(Clone, Copy, Debug)]
pub struct B256 {
    pub bytes: [u8; 32],
}

impl U256 {
    /// The number the limbs stand for.
    pub open spec fn value(self) -> int {
        self.l0 + self.l1 * p64() + self.l2 * p128() + self.l3 * p192()
    }

    /// Every word lies in the unsigned 256-bit range.
    pub broadcast proof fn lemma_value_range(x: U256)
        ensures
            0 <= #[trigger] x.value() <= u256_max(),
    {
    }

    /// Equal values have equal limbs.
    pub proof fn lemma_value_injective(a: U256, b: U256)
        requires
            a.value() == b.value(),
        ensures
            a == b,
    {
        let d0 = a.l0 - b.l0;
        let d1 = a.l1 - b.l1;
        let d2 = a.l2 - b.l2;
        let d3 = a.l3 - b.l3;
        assert(d0 + d1 * p64() + d2 * p128() + d3 * p192() == 0);
        if d3 != 0 {
            assert(false);
        }
        if d2 != 0 {
            assert(false);
        }
        if d1 != 0 {
            assert(false);
        }
    }

    /// The word of a 64-bit value.
    pub fn from_u64(x: u64) -> (r: U256)
        ensures
            r.value() == x,
    {
        U256 { l0: x, l1: 0, l2: 0, l3: 0 }
    }

    /// Zero.
    pub fn zero() -> (r: U256)
        ensures
            r.value() == 0,
    {
        U256::from_u64(0)
    }

    /// The largest word.
    pub fn max_value() -> (r: U256)
        ensures
            r.value() == u256_max(),
    {
        U256 { l0: u64::MAX, l1: u64::MAX, l2: u64::MAX, l3: u64::MAX }
    }

    /// Whether the word is zero.
    pub fn is_zero(&self) -> (r: bool)
        ensures
            r == (self.value() == 0),
    {
        self.l0 == 0 && self.l1 == 0 && self.l2 == 0 && self.l3 == 0
    }

    /// The value as a `u64`, where it fits.
    pub fn to_u64(&self) -> (r: Option<u64>)
        ensures
            r matches Some(v) ==> v == self.value(),
            r is None <==> self.value() > crate::multigas::u64_max(),
    {
        if self.l1 == 0 && self.l2 == 0 && self.l3 == 0 {
            Some(self.l0)
        } else {
            None
        }
    }

    /// Whether the two words are equal.
    pub fn equals(&self, other: &U256) -> (r: bool)
        ensures
            r == (self.value() == other.value()),
    {
        proof {
            if self.value() == other.value() {
                U256::lemma_value_injective(*self, *other);
            }
        }
        self.l0 == other.l0 && self.l1 == other.l1 && self.l2 == other.l2 && self.l3 == other.l3
    }

    /// Whether `self < other`.
    pub fn lt(&self, other: &U256) -> (r: bool)
        ensures
            r == (self.value() < other.value()),
    {
        if self.l3 != other.l3 {
            self.l3 < other.l3
        } else if self.l2 != other.l2 {
            self.l2 < other.l2
        } else if self.l1 != other.l1 {
            self.l1 < other.l1
        } else {
            self.l0 < other.l0
        }
    }

    /// Whether `self <= other`.
    pub fn le(&self, other: &U256) -> (r: bool)
        ensures
            r == (self.value() <= other.value()),
    {
        !other.lt(self)
    }

    /// The smaller of the two words.
    pub fn min(self, other: U256) -> (r: U256)
        ensures
            r.value() == if self.value() <= other.value() { self.value() } else { other.value() },
    {
        if other.lt(&self) {
            other
        } else {
            self
        }
    }
}

/// `a + b`, clamped at the largest word.
#[verifier::external_body]
pub(crate) fn u256_saturating_add(a: U256, b: U256) -> (r: U256)
    ensures
        r.value() == clamp_u256(a.value() + b.value()),
{
    let x = alloy_primitives::U256::from_limbs([a.l0, a.l1, a.l2, a.l3]);
    let y = alloy_primitives::U256::from_limbs([b.l0, b.l1, b.l2, b.l3]);
    let l = x.saturating_add(y).into_limbs();
    U256 { l0: l[0], l1: l[1], l2: l[2], l3: l[3] }
}

/// `a - b`, clamped at zero.
#[verifier::external_body]
pub(crate) fn u256_saturating_sub(a: U256, b: U256) -> (r: U256)
    ensures
        r.value() == clamp_u256(a.value() - b.value()),
{
    let x = alloy_primitives::U256::from_limbs([a.l0, a.l1, a.l2, a.l3]);
    let y = alloy_primitives::U256::from_limbs([b.l0, b.l1, b.l2, b.l3]);
    let l = x.saturating_sub(y).into_limbs();
    U256 { l0: l[0], l1: l[1], l2: l[2], l3: l[3] }
}

/// `a * b`, clamped at the largest word.
#[verifier::external_body]
pub(crate) fn u256_saturating_mul(a: U256, b: U256) -> (r: U256)
    ensures
        r.value() == clamp_u256(a.value() * b.value()),
{
    let x = alloy_primitives::U256::from_limbs([a.l0, a.l1, a.l2, a.l3]);
    let y = alloy_primitives::U256::from_limbs([b.l0, b.l1, b.l2, b.l3]);
    let l = x.saturating_mul(y).into_limbs();
    U256 { l0: l[0], l1: l[1], l2: l[2], l3: l[3] }
}

/// `a + b` modulo 2^256.
#[verifier::external_body]
pub(crate) fn u256_wrapping_add(a: U256, b: U256) -> (r: U256)
    ensures
        r.value() == (a.value() + b.value()) % p256(),
{
    let x = alloy_primitives::U256::from_limbs([a.l0, a.l1, a.l2, a.l3]);
    let y = alloy_primitives::U256::from_limbs([b.l0, b.l1, b.l2, b.l3]);
    let l = x.wrapping_add(y).into_limbs();
    U256 { l0: l[0], l1: l[1], l2: l[2], l3: l[3] }
}

/// `a - b` modulo 2^256.
#[verifier::external_body]
pub(crate) fn u256_wrapping_sub(a: U256, b: U256) -> (r: U256)
    ensures
        r.value() == (a.value() - b.value()) % p256(),
{
    let x = alloy_primitives::U256::from_limbs([a.l0, a.l1, a.l2, a.l3]);
    let y = alloy_primitives::U256::from_limbs([b.l0, b.l1, b.l2, b.l3]);
    let l = x.wrapping_sub(y).into_limbs();
    U256 { l0: l[0], l1: l[1], l2: l[2], l3: l[3] }
}

/// `a / b` rounded down.
#[verifier::external_body]
pub(crate) fn u256_div(a: U256, b: U256) -> (r: U256)
    requires
        b.value() != 0,
    ensures
        r.value() == a.value() / b.value(),
{
    let x = alloy_primitives::U256::from_limbs([a.l0, a.l1, a.l2, a.l3]);
    let y = alloy_primitives::U256::from_limbs([b.l0, b.l1, b.l2, b.l3]);
    let l = x.wrapping_div(y).into_limbs();
    U256 { l0: l[0], l1: l[1], l2: l[2], l3: l[3] }
}

impl I256 {
    /// The signed number the two's-complement bits stand for.
    pub open spec fn value(self) -> int {
        if self.raw.value() >= p255() {
            self.raw.value() - p256()
        } else {
            self.raw.value()
        }
    }

    /// Every signed word lies in the signed 256-bit range.
    pub broadcast proof fn lemma_value_range(x: I256)
        ensures
            i256_min() <= #[trigger] x.value() <= i256_max(),
    {
    }

    /// Equal signed values have equal bits.
    pub proof fn lemma_value_injective(a: I256, b: I256)
        requires
            a.value() == b.value(),
        ensures
            a == b,
    {
        U256::lemma_value_injective(a.raw, b.raw);
    }

    /// The signed word whose bits are `raw`.
    pub fn from_raw(raw: U256) -> (r: I256)
        ensures
            r.raw == raw,
    {
        I256 { raw }
    }

    /// The two's-complement bits.
    pub fn into_raw(self) -> (r: U256)
        ensures
            r == self.raw,
    {
        self.raw
    }

    /// The signed word of a 64-bit value.
    pub fn from_u64(x: u64) -> (r: I256)
        ensures
            r.value() == x,
    {
        I256 { raw: U256::from_u64(x) }
    }

    /// Zero.
    pub fn zero() -> (r: I256)
        ensures
            r.value() == 0,
    {
        I256::from_u64(0)
    }

    /// One.
    pub fn one() -> (r: I256)
        ensures
            r.value() == 1,
    {
        I256::from_u64(1)
    }

    /// The largest signed word.
    pub fn max_value() -> (r: I256)
        ensures
            r.value() == i256_max(),
    {
        I256 { raw: U256 { l0: u64::MAX, l1: u64::MAX, l2: u64::MAX, l3: 0x7fff_ffff_ffff_ffff } }
    }

    /// The smallest signed word.
    pub fn min_value() -> (r: I256)
        ensures
            r.value() == i256_min(),
    {
        I256 { raw: U256 { l0: 0, l1: 0, l2: 0, l3: 0x8000_0000_0000_0000 } }
    }

    /// Whether the value is negative.
    pub fn is_negative(&self) -> (r: bool)
        ensures
            r == (self.value() < 0),
    {
        self.raw.l3 >= 0x8000_0000_0000_0000
    }

    /// Whether the value is zero.
    pub fn is_zero(&self) -> (r: bool)
        ensures
            r == (self.value() == 0),
    {
        self.raw.is_zero()
    }

    /// Whether the value is above zero.
    pub fn is_positive(&self) -> (r: bool)
        ensures
            r == (self.value() > 0),
    {
        !self.is_negative() && !self.is_zero()
    }

    /// Whether `self < other`.
    pub fn lt(&self, other: &I256) -> (r: bool)
        ensures
            r == (self.value() < other.value()),
    {
        let a_neg = self.is_negative();
        let b_neg = other.is_negative();
        if a_neg != b_neg {
            a_neg
        } else {
            self.raw.lt(&other.raw)
        }
    }

    /// Whether `self >= other`.
    pub fn ge(&self, other: &I256) -> (r: bool)
        ensures
            r == (self.value() >= other.value()),
    {
        !self.lt(other)
    }

    /// The unsigned word of the same value, or the largest signed word where
    /// the value exceeds it.
    pub fn from_u256_saturating(x: U256) -> (r: I256)
        ensures
            r.value() == if x.value() <= i256_max() { x.value() } else { i256_max() },
    {
        if x.l3 >= 0x8000_0000_0000_0000 {
            I256::max_value()
        } else {
            I256 { raw: x }
        }
    }

    /// The unsigned word of the same value, or the largest word where the
    /// value is negative.
    pub fn to_u256_saturating(&self) -> (r: U256)
        ensures
            r.value() == if self.value() >= 0 { self.value() } else { u256_max() },
    {
        if self.is_negative() {
            U256::max_value()
        } else {
            self.raw
        }
    }
}

/// `a + b`, clamped to the signed range.
#[verifier::external_body]
pub(crate) fn i256_saturating_add(a: I256, b: I256) -> (r: I256)
    ensures
        r.value() == clamp_i256(a.value() + b.value()),
{
    let x = alloy_primitives::I256::from_raw(alloy_primitives::U256::from_limbs([a.raw.l0, a.raw.l1, a.raw.l2, a.raw.l3]));
    let y = alloy_primitives::I256::from_raw(alloy_primitives::U256::from_limbs([b.raw.l0, b.raw.l1, b.raw.l2, b.raw.l3]));
    let l = x.saturating_add(y).into_raw().into_limbs();
    I256 { raw: U256 { l0: l[0], l1: l[1], l2: l[2], l3: l[3] } }
}

/// `a - b`, clamped to the signed range.
#[verifier::external_body]
pub(crate) fn i256_saturating_sub(a: I256, b: I256) -> (r: I256)
    ensures
        r.value() == clamp_i256(a.value() - b.value()),
{
    let x = alloy_primitives::I256::from_raw(alloy_primitives::U256::from_limbs([a.raw.l0, a.raw.l1, a.raw.l2, a.raw.l3]));
    let y = alloy_primitives::I256::from_raw(alloy_primitives::U256::from_limbs([b.raw.l0, b.raw.l1, b.raw.l2, b.raw.l3]));
    let l = x.saturating_sub(y).into_raw().into_limbs();
    I256 { raw: U256 { l0: l[0], l1: l[1], l2: l[2], l3: l[3] } }
}

/// `a * b`, clamped to the signed range.
#[verifier::external_body]
pub(crate) fn i256_saturating_mul(a: I256, b: I256) -> (r: I256)
    ensures
        r.value() == clamp_i256(a.value() * b.value()),
{
    let x = alloy_primitives::I256::from_raw(alloy_primitives::U256::from_limbs([a.raw.l0, a.raw.l1, a.raw.l2, a.raw.l3]));
    let y = alloy_primitives::I256::from_raw(alloy_primitives::U256::from_limbs([b.raw.l0, b.raw.l1, b.raw.l2, b.raw.l3]));
    let l = x.saturating_mul(y).into_raw().into_limbs();
    I256 { raw: U256 { l0: l[0], l1: l[1], l2: l[2], l3: l[3] } }
}

/// `-a`, clamped to the signed range (`-MIN` gives `MAX`).
#[verifier::external_body]
pub(crate) fn i256_saturating_neg(a: I256) -> (r: I256)
    ensures
        r.value() == clamp_i256(-a.value()),
{
    let x = alloy_primitives::I256::from_raw(alloy_primitives::U256::from_limbs([a.raw.l0, a.raw.l1, a.raw.l2, a.raw.l3]));
    let l = x.saturating_neg().into_raw().into_limbs();
    I256 { raw: U256 { l0: l[0], l1: l[1], l2: l[2], l3: l[3] } }
}

/// `-a`, where `-MIN` wraps to `MIN`.
#[verifier::external_body]
pub(crate) fn i256_wrapping_neg(a: I256) -> (r: I256)
    ensures
        r.value() == if a.value() == i256_min() { i256_min() } else { -a.value() },
{
    let x = alloy_primitives::I256::from_raw(alloy_primitives::U256::from_limbs([a.raw.l0, a.raw.l1, a.raw.l2, a.raw.l3]));
    let l = x.wrapping_neg().into_raw().into_limbs();
    I256 { raw: U256 { l0: l[0], l1: l[1], l2: l[2], l3: l[3] } }
}

/// `a / b` rounded toward zero, where `MIN / -1` wraps to `MIN`.
#[verifier::external_body]
pub(crate) fn i256_wrapping_div(a: I256, b: I256) -> (r: I256)
    requires
        b.value() != 0,
    ensures
        r.value() == wrapping_div_i256(a.value(), b.value()),
{
    let x = alloy_primitives::I256::from_raw(alloy_primitives::U256::from_limbs([a.raw.l0, a.raw.l1, a.raw.l2, a.raw.l3]));
    let y = alloy_primitives::I256::from_raw(alloy_primitives::U256::from_limbs([b.raw.l0, b.raw.l1, b.raw.l2, b.raw.l3]));
    let l = x.wrapping_div(y).into_raw().into_limbs();
    I256 { raw: U256 { l0: l[0], l1: l[1], l2: l[2], l3: l[3] } }
}

/// The absolute value, as an unsigned word.
#[verifier::external_body]
pub(crate) fn i256_unsigned_abs(a: I256) -> (r: U256)
    ensures
        r.value() == abs(a.value()),
{
    let x = alloy_primitives::I256::from_raw(alloy_primitives::U256::from_limbs([a.raw.l0, a.raw.l1, a.raw.l2, a.raw.l3]));
    let l = x.unsigned_abs().into_limbs();
    U256 { l0: l[0], l1: l[1], l2: l[2], l3: l[3] }
}

impl Address {
    /// The twenty bytes.
    pub open spec fn view_bytes(self) -> Seq<u8> {
        self.bytes@
    }

    /// Whether the two addresses are the same.
    pub fn equals(&self, other: &Address) -> (r: bool)
        ensures
            r == (self.bytes@ == other.bytes@),
    {
        let mut i: usize = 0;
        while i < 20
            invariant
                i <= 20,
                forall|j: int| 0 <= j < i ==> self.bytes@[j] == other.bytes@[j],
            decreases 20 - i,
        {
            if self.bytes[i] != other.bytes[i] {
                return false;
            }
            i += 1;
        }
        assert(self.bytes@ =~= other.bytes@);
        true
    }
}

} // verus!
