//! Multi-dimensional gas: per-resource amounts, a single-dimensional total
//! and a refund counter.
use vstd::prelude::*;

verus! {

/// Number of resource kinds, `Unknown` included.
pub const NUM_RESOURCE_KIND: usize = 8;

/// A dimension for multi-dimensional gas accounting.
#[derive(Clone, Copy, Debug, PartialEq, Eq, Structural)]
pub enum ResourceKind {
    Unknown,
    Computation,
    HistoryGrowth,
    StorageAccess,
    StorageGrowth,
    L1Calldata,
    L2Calldata,
    WasmComputation,
}

/// The largest value of a `u64`, as a mathematical integer.
pub open spec fn u64_max() -> int {
    0xffff_ffff_ffff_ffff
}

/// `x` clamped to the `u64` range from above.
pub open spec fn sat_u64(x: int) -> u64 {
    if x > u64_max() {
        u64::MAX
    } else if x < 0 {
        0
    } else {
        x as u64
    }
}

/// `a - b`, or 0 where `b > a`.
pub open spec fn sub_clamped(a: u64, b: u64) -> u64 {
    if a >= b {
        (a - b) as u64
    } else {
        0
    }
}

/// `a - b` modulo 2^64.
pub open spec fn wrapping_sub_u64(a: u64, b: u64) -> int {
    if a >= b {
        a - b
    } else {
        a - b + 0x1_0000_0000_0000_0000
    }
}

/// The decimal representation of a natural number.
pub open spec fn decimal_digits(n: nat) -> Seq<char>
    decreases n,
{
    if n < 10 {
        seq![digit_char(n)]
    } else {
        decimal_digits(n / 10).push(digit_char(n % 10))
    }
}

/// The character of one decimal digit.
pub open spec fn digit_char(d: nat) -> char {
    if d == 0 {
        '0'
    } else if d == 1 {
        '1'
    } else if d == 2 {
        '2'
    } else if d == 3 {
        '3'
    } else if d == 4 {
        '4'
    } else if d == 5 {
        '5'
    } else if d == 6 {
        '6'
    } else if d == 7 {
        '7'
    } else if d == 8 {
        '8'
    } else {
        '9'
    }
}

impl ResourceKind {
    /// Number of resource kinds.
    pub const COUNT: usize = 8;

    /// The numeric id of the kind.
    pub open spec fn id(self) -> nat {
        match self {
            ResourceKind::Unknown => 0,
            ResourceKind::Computation => 1,
            ResourceKind::HistoryGrowth => 2,
            ResourceKind::StorageAccess => 3,
            ResourceKind::StorageGrowth => 4,
            ResourceKind::L1Calldata => 5,
            ResourceKind::L2Calldata => 6,
            ResourceKind::WasmComputation => 7,
        }
    }

    /// The kind with numeric id `id` (meaningful for ids below 8).
    pub open spec fn from_id(id: nat) -> ResourceKind {
        if id == 1 {
            ResourceKind::Computation
        } else if id == 2 {
            ResourceKind::HistoryGrowth
        } else if id == 3 {
            ResourceKind::StorageAccess
        } else if id == 4 {
            ResourceKind::StorageGrowth
        } else if id == 5 {
            ResourceKind::L1Calldata
        } else if id == 6 {
            ResourceKind::L2Calldata
        } else if id == 7 {
            ResourceKind::WasmComputation
        } else {
            ResourceKind::Unknown
        }
    }

    /// The name of the kind.
    pub open spec fn name(self) -> Seq<char> {
        match self {
            ResourceKind::Unknown => "Unknown"@,
            ResourceKind::Computation => "Computation"@,
            ResourceKind::HistoryGrowth => "HistoryGrowth"@,
            ResourceKind::StorageAccess => "StorageAccess"@,
            ResourceKind::StorageGrowth => "StorageGrowth"@,
            ResourceKind::L1Calldata => "L1Calldata"@,
            ResourceKind::L2Calldata => "L2Calldata"@,
            ResourceKind::WasmComputation => "WasmComputation"@,
        }
    }

    /// The position of this kind in a per-kind array.
    pub fn as_index(&self) -> (r: usize)
        ensures
            r == self.id(),
            r < 8,
    {
        match self {
            ResourceKind::Unknown => 0,
            ResourceKind::Computation => 1,
            ResourceKind::HistoryGrowth => 2,
            ResourceKind::StorageAccess => 3,
            ResourceKind::StorageGrowth => 4,
            ResourceKind::L1Calldata => 5,
            ResourceKind::L2Calldata => 6,
            ResourceKind::WasmComputation => 7,
        }
    }

    /// The kind's name.
    pub fn to_string(&self) -> (r: String)
        ensures
            r@ == self.name(),
    {
        match self {
            ResourceKind::Unknown => "Unknown".to_string(),
            ResourceKind::Computation => "Computation".to_string(),
            ResourceKind::HistoryGrowth => "HistoryGrowth".to_string(),
            ResourceKind::StorageAccess => "StorageAccess".to_string(),
            ResourceKind::StorageGrowth => "StorageGrowth".to_string(),
            ResourceKind::L1Calldata => "L1Calldata".to_string(),
            ResourceKind::L2Calldata => "L2Calldata".to_string(),
            ResourceKind::WasmComputation => "WasmComputation".to_string(),
        }
    }
}

/// The decimal digits of a byte, as a string.
fn u8_decimal(x: u8) -> (r: String)
    ensures
        r@ == decimal_digits(x as nat),
{
    let mut s = String::new();
    if x >= 100 {
        s.append(digit_str(x / 100));
    }
    if x >= 10 {
        s.append(digit_str((x / 10) % 10));
    }
    s.append(digit_str(x % 10));
    proof {
        reveal_with_fuel(decimal_digits, 3);
        if x >= 100 {
            assert(decimal_digits(x as nat / 10) == decimal_digits((x as nat / 10) / 10).push(
                digit_char((x as nat / 10) % 10),
            ));
        }
    }
    s
}

/// The one-character string of a decimal digit.
fn digit_str(d: u8) -> (r: &'static str)
    requires
        d < 10,
    ensures
        r@ == seq![digit_char(d as nat)],
{
    proof {
        reveal_strlit("0");
        reveal_strlit("1");
        reveal_strlit("2");
        reveal_strlit("3");
        reveal_strlit("4");
        reveal_strlit("5");
        reveal_strlit("6");
        reveal_strlit("7");
        reveal_strlit("8");
        reveal_strlit("9");
    }
    if d == 0 {
        "0"
    } else if d == 1 {
        "1"
    } else if d == 2 {
        "2"
    } else if d == 3 {
        "3"
    } else if d == 4 {
        "4"
    } else if d == 5 {
        "5"
    } else if d == 6 {
        "6"
    } else if d == 7 {
        "7"
    } else if d == 8 {
        "8"
    } else {
        "9"
    }
}

/// Checks whether `id` names a real resource kind: `Err` for 0 (`Unknown`)
/// and for ids from 8 on, with the message `invalid resource id: <id>`.
pub fn check_resource_kind(id: u8) -> (r: Result<ResourceKind, String>)
    ensures
        match r {
            Ok(kind) => 1 <= id < 8 && kind.id() == id && kind == ResourceKind::from_id(id as nat),
            Err(msg) => (id == 0 || id >= 8) && msg@ == "invalid resource id: "@ + decimal_digits(
                id as nat,
            ),
        },
{
    if id == 0 || id >= 8 {
        let mut msg = String::from_str("invalid resource id: ");
        let digits = u8_decimal(id);
        msg.append(digits.as_str());
        proof {
            reveal_strlit("invalid resource id: ");
        }
        return Err(msg);
    }
    let kind = if id == 1 {
        ResourceKind::Computation
    } else if id == 2 {
        ResourceKind::HistoryGrowth
    } else if id == 3 {
        ResourceKind::StorageAccess
    } else if id == 4 {
        ResourceKind::StorageGrowth
    } else if id == 5 {
        ResourceKind::L1Calldata
    } else if id == 6 {
        ResourceKind::L2Calldata
    } else {
        ResourceKind::WasmComputation
    };
    Ok(kind)
}

/// A resource kind and its associated gas amount.
pub struct Pair {
    pub kind: ResourceKind,
    pub amount: u64,
}

/// Eight zero amounts.
pub open spec fn zero_gas() -> Seq<u64> {
    Seq::new(8, |i: int| 0u64)
}

/// The sum of a sequence of amounts.
pub open spec fn gas_sum(s: Seq<u64>) -> int
    decreases s.len(),
{
    if s.len() == 0 {
        0
    } else {
        gas_sum(s.drop_last()) + s.last()
    }
}

/// The per-kind amounts after applying the pairs in order, each overwriting its kind.
pub open spec fn pairs_gas(pairs: Seq<Pair>) -> Seq<u64>
    decreases pairs.len(),
{
    if pairs.len() == 0 {
        zero_gas()
    } else {
        pairs_gas(pairs.drop_last()).update(pairs.last().kind.id() as int, pairs.last().amount)
    }
}

/// Whether adding `b` to `a` kind by kind overflows in some kind.
pub open spec fn kinds_add_overflow(a: Seq<u64>, b: Seq<u64>) -> bool {
    exists|i: int| 0 <= i < 8 && a[i] + b[i] > u64_max()
}

/// Whether subtracting `b` from `a` kind by kind underflows in some kind.
pub open spec fn kinds_sub_underflow(a: Seq<u64>, b: Seq<u64>) -> bool {
    exists|i: int| 0 <= i < 8 && a[i] < b[i]
}

/// Gas usage tracked across all resource dimensions plus a single-dimensional
/// total and a refund counter.
#[derive(Clone, Copy, Debug, PartialEq, Eq)]
pub struct MultiGas {
    gas: [u64; 8],
    total: u64,
    refund: u64,
}

impl Default for MultiGas {
    fn default() -> (r: Self)
        ensures
            r.gas_view() == zero_gas(),
            r.total_view() == 0,
            r.refund_view() == 0,
    {
        MultiGas::zero()
    }
}

/// Adds two `u64` values, returning the sum and whether it overflowed; on
/// overflow the sum is `u64::MAX`.
pub fn saturating_scalar_add(a: u64, b: u64) -> (r: (u64, bool))
    ensures
        r.1 == (a + b > u64_max()),
        r.0 == sat_u64(a + b),
{
    match a.checked_add(b) {
        Some(s) => (s, false),
        None => (u64::MAX, true),
    }
}

/// Subtracts two `u64` values, returning the difference and whether it
/// underflowed; on underflow the difference is 0.
pub fn saturating_scalar_sub(a: u64, b: u64) -> (r: (u64, bool))
    ensures
        r.1 == (b > a),
        r.0 == sub_clamped(a, b),
{
    if b > a {
        (0, true)
    } else {
        (a - b, false)
    }
}

/// Splitting the last element off a prefix sum.
pub proof fn lemma_gas_sum_take(s: Seq<u64>, i: int)
    requires
        0 <= i < s.len(),
    ensures
        gas_sum(s.take(i + 1)) == gas_sum(s.take(i)) + s[i],
{
    assert(s.take(i + 1).drop_last() =~= s.take(i));
}

/// Sums of amounts are never negative.
pub proof fn lemma_gas_sum_nonneg(s: Seq<u64>)
    ensures
        gas_sum(s) >= 0,
    decreases s.len(),
{
    if s.len() > 0 {
        lemma_gas_sum_nonneg(s.drop_last());
    }
}

/// Prefix sums grow with the prefix and stay non-negative.
pub proof fn lemma_gas_sum_prefix_mono(s: Seq<u64>, i: int, j: int)
    requires
        0 <= i <= j <= s.len(),
    ensures
        0 <= gas_sum(s.take(i)) <= gas_sum(s.take(j)),
    decreases j - i,
{
    lemma_gas_sum_nonneg(s.take(i));
    if i < j {
        lemma_gas_sum_take(s, j - 1);
        lemma_gas_sum_prefix_mono(s, i, j - 1);
    }
}

/// The sum of element-wise sums is the sum of the sums.
pub proof fn lemma_gas_sum_add(a: Seq<u64>, b: Seq<u64>, c: Seq<u64>)
    requires
        a.len() == b.len() == c.len(),
        forall|i: int| 0 <= i < a.len() ==> c[i] == a[i] + b[i],
    ensures
        gas_sum(c) == gas_sum(a) + gas_sum(b),
    decreases a.len(),
{
    if a.len() > 0 {
        lemma_gas_sum_add(a.drop_last(), b.drop_last(), c.drop_last());
    }
}

impl MultiGas {
    /// The per-kind amounts, indexed by kind id.
    pub closed spec fn gas_view(self) -> Seq<u64> {
        self.gas@
    }

    /// The single-dimensional total.
    pub closed spec fn total_view(self) -> u64 {
        self.total
    }

    /// The refund counter.
    pub closed spec fn refund_view(self) -> u64 {
        self.refund
    }

    /// Whether the total equals the sum of the per-kind amounts.
    pub open spec fn is_consistent(self) -> bool {
        self.total_view() == gas_sum(self.gas_view())
    }

    /// A value has exactly eight per-kind amounts.
    pub broadcast proof fn lemma_gas_view_len(mg: MultiGas)
        ensures
            #[trigger] mg.gas_view().len() == 8,
    {
    }

    /// Two values with the same views are equal.
    pub proof fn lemma_view_ext(a: MultiGas, b: MultiGas)
        requires
            a.gas_view() == b.gas_view(),
            a.total_view() == b.total_view(),
            a.refund_view() == b.refund_view(),
        ensures
            a == b,
    {
        assert(a.gas =~= b.gas);
    }

    /// All fields zero.
    pub fn zero() -> (r: Self)
        ensures
            r.gas_view() == zero_gas(),
            r.total_view() == 0,
            r.refund_view() == 0,
    {
        let r = MultiGas { gas: [0u64; 8], total: 0, refund: 0 };
        assert(r.gas@ =~= zero_gas());
        r
    }

    /// Whether `r` holds `amount` of `kind`, zero of every other kind, total
    /// `amount` and no refund.
    pub open spec fn is_single(kind: ResourceKind, amount: u64, r: MultiGas) -> bool {
        &&& r.gas_view() == zero_gas().update(kind.id() as int, amount)
        &&& r.total_view() == amount
        &&& r.refund_view() == 0
    }

    /// `kind` set to `amount`, every other kind zero, total `amount`.
    pub fn new(kind: ResourceKind, amount: u64) -> (r: Self)
        ensures
            Self::is_single(kind, amount, r),
    {
        let mut mg = Self::zero();
        mg.gas[kind.as_index()] = amount;
        mg.total = amount;
        assert(mg.gas@ =~= zero_gas().update(kind.id() as int, amount));
        mg
    }

    /// Builds a value from resource-amount pairs, later pairs overwriting
    /// earlier ones of the same kind; the total is the sum of the amounts.
    pub fn from_pairs(pairs: &[Pair]) -> (r: Self)
        requires
            gas_sum(pairs_gas(pairs@)) <= u64_max(),
        ensures
            r.gas_view() == pairs_gas(pairs@),
            r.total_view() == gas_sum(pairs_gas(pairs@)),
            r.refund_view() == 0,
    {
        let mut mg = Self::zero();
        let mut i: usize = 0;
        while i < pairs.len()
            invariant
                i <= pairs.len(),
                mg.gas@ == pairs_gas(pairs@.take(i as int)),
                mg.refund == 0,
            decreases pairs.len() - i,
        {
            let k = pairs[i].kind.as_index();
            mg.gas[k] = pairs[i].amount;
            proof {
                assert(pairs@.take(i + 1).drop_last() =~= pairs@.take(i as int));
            }
            i += 1;
        }
        assert(pairs@.take(pairs.len() as int) =~= pairs@);
        proof {
            lemma_gas_sum_nonneg(mg.gas@);
        }
        let overflow = mg.recompute_total();
        mg
    }

    /// Per-kind constructors.
    pub fn computation(amount: u64) -> (r: Self)
        ensures
            Self::is_single(ResourceKind::Computation, amount, r),
    {
        Self::new(ResourceKind::Computation, amount)
    }

    pub fn history_growth(amount: u64) -> (r: Self)
        ensures
            Self::is_single(ResourceKind::HistoryGrowth, amount, r),
    {
        Self::new(ResourceKind::HistoryGrowth, amount)
    }

    pub fn storage_access(amount: u64) -> (r: Self)
        ensures
            Self::is_single(ResourceKind::StorageAccess, amount, r),
    {
        Self::new(ResourceKind::StorageAccess, amount)
    }

    pub fn storage_growth(amount: u64) -> (r: Self)
        ensures
            Self::is_single(ResourceKind::StorageGrowth, amount, r),
    {
        Self::new(ResourceKind::StorageGrowth, amount)
    }

    pub fn l1_calldata(amount: u64) -> (r: Self)
        ensures
            Self::is_single(ResourceKind::L1Calldata, amount, r),
    {
        Self::new(ResourceKind::L1Calldata, amount)
    }

    pub fn l2_calldata(amount: u64) -> (r: Self)
        ensures
            Self::is_single(ResourceKind::L2Calldata, amount, r),
    {
        Self::new(ResourceKind::L2Calldata, amount)
    }

    pub fn wasm_computation(amount: u64) -> (r: Self)
        ensures
            Self::is_single(ResourceKind::WasmComputation, amount, r),
    {
        Self::new(ResourceKind::WasmComputation, amount)
    }

    /// The amount of `kind`.
    pub fn get(&self, kind: ResourceKind) -> (r: u64)
        ensures
            r == self.gas_view()[kind.id() as int],
    {
        self.gas[kind.as_index()]
    }

    /// A copy with `kind` set to `amount` and the total adjusted by the
    /// difference; `(self, true)` where the adjusted total overflows.
    pub fn with(&self, kind: ResourceKind, amount: u64) -> (r: (Self, bool))
        ensures
            ({
                let base = wrapping_sub_u64(self.total_view(), self.gas_view()[kind.id() as int]);
                &&& r.1 == (base + amount > u64_max())
                &&& r.1 ==> r.0 == *self
                &&& !r.1 ==> r.0.gas_view() == self.gas_view().update(kind.id() as int, amount)
                    && r.0.total_view() == base + amount && r.0.refund_view()
                    == self.refund_view()
            }),
    {
        let k = kind.as_index();
        let mut res = *self;
        let base = self.total.wrapping_sub(self.gas[k]);
        let (new_total, overflow) = saturating_scalar_add(base, amount);
        if overflow {
            return (*self, true);
        }
        res.total = new_total;
        res.gas[k] = amount;
        assert(res.gas@ =~= self.gas@.update(kind.id() as int, amount));
        (res, false)
    }

    /// The refund counter.
    pub fn get_refund(&self) -> (r: u64)
        ensures
            r == self.refund_view(),
    {
        self.refund
    }

    /// A copy with the refund set to `amount`.
    pub fn with_refund(&self, amount: u64) -> (r: Self)
        ensures
            r.gas_view() == self.gas_view(),
            r.total_view() == self.total_view(),
            r.refund_view() == amount,
    {
        let mut res = *self;
        res.refund = amount;
        res
    }

    /// The single-dimensional total minus the refund, clamped at zero.
    pub fn single_gas(&self) -> (r: u64)
        ensures
            r == sub_clamped(self.total_view(), self.refund_view()),
    {
        self.total.saturating_sub(self.refund)
    }

    /// Whether every field is zero.
    pub fn is_zero(&self) -> (r: bool)
        ensures
            r == (self.total_view() == 0 && self.refund_view() == 0 && self.gas_view()
                == zero_gas()),
    {
        if self.total != 0 || self.refund != 0 {
            return false;
        }
        let mut i: usize = 0;
        while i < 8
            invariant
                i <= 8,
                forall|j: int| 0 <= j < i ==> self.gas@[j] == 0,
            decreases 8 - i,
        {
            if self.gas[i] != 0 {
                assert(self.gas@ != zero_gas());
                return false;
            }
            i += 1;
        }
        assert(self.gas@ =~= zero_gas());
        true
    }

    /// Adds `x` kind by kind, to the total and to the refund; `(self, true)`
    /// where any of these overflows.
    pub fn safe_add(&self, x: &Self) -> (r: (Self, bool))
        ensures
            r.1 == (kinds_add_overflow(self.gas_view(), x.gas_view()) || self.total_view()
                + x.total_view() > u64_max() || self.refund_view() + x.refund_view()
                > u64_max()),
            r.1 ==> r.0 == *self,
            !r.1 ==> r.0.gas_view() == Seq::new(
                8,
                |i: int| (self.gas_view()[i] + x.gas_view()[i]) as u64,
            ) && r.0.total_view() == self.total_view() + x.total_view() && r.0.refund_view()
                == self.refund_view() + x.refund_view(),
    {
        let mut res = *self;
        let mut i: usize = 0;
        while i < 8
            invariant
                i <= 8,
                res.total == self.total,
                res.refund == self.refund,
                forall|j: int| 0 <= j < i ==> self.gas@[j] + x.gas@[j] <= u64_max(),
                forall|j: int| 0 <= j < i ==> res.gas@[j] == self.gas@[j] + x.gas@[j],
                forall|j: int| i <= j < 8 ==> res.gas@[j] == self.gas@[j],
            decreases 8 - i,
        {
            let (v, overflow) = saturating_scalar_add(res.gas[i], x.gas[i]);
            if overflow {
                assert(kinds_add_overflow(self.gas@, x.gas@));
                return (*self, true);
            }
            res.gas[i] = v;
            i += 1;
        }
        assert(!kinds_add_overflow(self.gas@, x.gas@));
        let (total, overflow) = saturating_scalar_add(res.total, x.total);
        if overflow {
            return (*self, true);
        }
        res.total = total;
        let (refund, overflow) = saturating_scalar_add(res.refund, x.refund);
        if overflow {
            return (*self, true);
        }
        res.refund = refund;
        assert(res.gas@ =~= Seq::new(8, |i: int| (self.gas@[i] + x.gas@[i]) as u64));
        (res, false)
    }

    /// Whether `r` is `a` plus `b` with every field clamped at `u64::MAX`.
    pub open spec fn is_saturating_sum(a: MultiGas, b: MultiGas, r: MultiGas) -> bool {
        &&& r.gas_view() == Seq::new(8, |i: int| sat_u64(a.gas_view()[i] + b.gas_view()[i]))
        &&& r.total_view() == sat_u64(a.total_view() + b.total_view())
        &&& r.refund_view() == sat_u64(a.refund_view() + b.refund_view())
    }

    /// Adds `x` kind by kind, to the total and to the refund, each clamped at `u64::MAX`.
    pub fn saturating_add(&self, x: &Self) -> (r: Self)
        ensures
            Self::is_saturating_sum(*self, *x, r),
    {
        let mut res = *self;
        let mut i: usize = 0;
        while i < 8
            invariant
                i <= 8,
                res.total == self.total,
                res.refund == self.refund,
                forall|j: int| 0 <= j < i ==> res.gas@[j] == sat_u64(self.gas@[j] + x.gas@[j]),
                forall|j: int| i <= j < 8 ==> res.gas@[j] == self.gas@[j],
            decreases 8 - i,
        {
            res.gas[i] = res.gas[i].saturating_add(x.gas[i]);
            i += 1;
        }
        res.total = res.total.saturating_add(x.total);
        res.refund = res.refund.saturating_add(x.refund);
        assert(res.gas@ =~= Seq::new(8, |i: int| sat_u64(self.gas@[i] + x.gas@[i])));
        res
    }

    /// Adds `x` into `self` in place, every field clamped at `u64::MAX`.
    pub fn saturating_add_into(&mut self, x: &Self)
        ensures
            Self::is_saturating_sum(*old(self), *x, *final(self)),
    {
        let ghost orig = *self;
        let mut i: usize = 0;
        while i < 8
            invariant
                i <= 8,
                self.total == orig.total,
                self.refund == orig.refund,
                forall|j: int| 0 <= j < i ==> self.gas@[j] == sat_u64(orig.gas@[j] + x.gas@[j]),
                forall|j: int| i <= j < 8 ==> self.gas@[j] == orig.gas@[j],
            decreases 8 - i,
        {
            self.gas[i] = self.gas[i].saturating_add(x.gas[i]);
            i += 1;
        }
        self.total = self.total.saturating_add(x.total);
        self.refund = self.refund.saturating_add(x.refund);
        assert(self.gas@ =~= Seq::new(8, |i: int| sat_u64(orig.gas@[i] + x.gas@[i])));
    }

    /// Subtracts `x` kind by kind and from the refund, then recomputes the
    /// total from the kinds (clamped at `u64::MAX`); `(self, true)` where a
    /// kind or the refund underflows.
    pub fn safe_sub(&self, x: &Self) -> (r: (Self, bool))
        ensures
            r.1 == (kinds_sub_underflow(self.gas_view(), x.gas_view()) || self.refund_view()
                < x.refund_view()),
            r.1 ==> r.0 == *self,
            !r.1 ==> r.0.gas_view() == Seq::new(
                8,
                |i: int| (self.gas_view()[i] - x.gas_view()[i]) as u64,
            ) && r.0.refund_view() == self.refund_view() - x.refund_view() && r.0.total_view()
                == sat_u64(gas_sum(r.0.gas_view())),
    {
        let mut res = *self;
        let mut i: usize = 0;
        while i < 8
            invariant
                i <= 8,
                res.refund == self.refund,
                forall|j: int| 0 <= j < i ==> self.gas@[j] >= x.gas@[j],
                forall|j: int| 0 <= j < i ==> res.gas@[j] == self.gas@[j] - x.gas@[j],
                forall|j: int| i <= j < 8 ==> res.gas@[j] == self.gas@[j],
            decreases 8 - i,
        {
            let (v, underflow) = saturating_scalar_sub(res.gas[i], x.gas[i]);
            if underflow {
                assert(kinds_sub_underflow(self.gas@, x.gas@));
                return (*self, true);
            }
            res.gas[i] = v;
            i += 1;
        }
        assert(!kinds_sub_underflow(self.gas@, x.gas@));
        let (refund, underflow) = saturating_scalar_sub(res.refund, x.refund);
        if underflow {
            return (*self, true);
        }
        res.refund = refund;
        let _ = res.recompute_total();
        assert(res.gas@ =~= Seq::new(8, |i: int| (self.gas@[i] - x.gas@[i]) as u64));
        (res, false)
    }

    /// Subtracts `x` kind by kind and from the refund, each clamped at zero,
    /// then recomputes the total from the kinds (clamped at `u64::MAX`).
    pub fn saturating_sub(&self, x: &Self) -> (r: Self)
        ensures
            r.gas_view() == Seq::new(
                8,
                |i: int| sub_clamped(self.gas_view()[i], x.gas_view()[i]),
            ),
            r.refund_view() == sub_clamped(self.refund_view(), x.refund_view()),
            r.total_view() == sat_u64(gas_sum(r.gas_view())),
    {
        let mut res = *self;
        let mut i: usize = 0;
        while i < 8
            invariant
                i <= 8,
                res.refund == self.refund,
                forall|j: int| 0 <= j < i ==> res.gas@[j] == sub_clamped(self.gas@[j], x.gas@[j]),
                forall|j: int| i <= j < 8 ==> res.gas@[j] == self.gas@[j],
            decreases 8 - i,
        {
            res.gas[i] = res.gas[i].saturating_sub(x.gas[i]);
            i += 1;
        }
        res.refund = res.refund.saturating_sub(x.refund);
        let _ = res.recompute_total();
        assert(res.gas@ =~= Seq::new(8, |i: int| sub_clamped(self.gas@[i], x.gas@[i])));
        res
    }

    /// Adds `gas` to `kind` and to the total; `(self, true)` where either overflows.
    pub fn safe_increment(&self, kind: ResourceKind, gas: u64) -> (r: (Self, bool))
        ensures
            r.1 == (self.gas_view()[kind.id() as int] + gas > u64_max() || self.total_view()
                + gas > u64_max()),
            r.1 ==> r.0 == *self,
            !r.1 ==> r.0.gas_view() == self.gas_view().update(
                kind.id() as int,
                (self.gas_view()[kind.id() as int] + gas) as u64,
            ) && r.0.total_view() == self.total_view() + gas && r.0.refund_view()
                == self.refund_view(),
    {
        let k = kind.as_index();
        let mut res = *self;
        let (v, overflow) = saturating_scalar_add(self.gas[k], gas);
        if overflow {
            return (*self, true);
        }
        res.gas[k] = v;
        let (total, overflow) = saturating_scalar_add(self.total, gas);
        if overflow {
            return (*self, true);
        }
        res.total = total;
        assert(res.gas@ =~= self.gas@.update(kind.id() as int, (self.gas@[kind.id() as int] + gas) as u64));
        (res, false)
    }

    /// Whether `r` is `a` with `gas` added to `kind` and to the total, both clamped.
    pub open spec fn is_saturating_increment(a: MultiGas, kind: ResourceKind, gas: u64, r: MultiGas) -> bool {
        &&& r.gas_view() == a.gas_view().update(
            kind.id() as int,
            sat_u64(a.gas_view()[kind.id() as int] + gas),
        )
        &&& r.total_view() == sat_u64(a.total_view() + gas)
        &&& r.refund_view() == a.refund_view()
    }

    /// Adds `gas` to `kind` and to the total, each clamped at `u64::MAX`.
    pub fn saturating_increment(&self, kind: ResourceKind, gas: u64) -> (r: Self)
        ensures
            Self::is_saturating_increment(*self, kind, gas, r),
    {
        let k = kind.as_index();
        let mut res = *self;
        res.gas[k] = res.gas[k].saturating_add(gas);
        res.total = res.total.saturating_add(gas);
        assert(res.gas@ =~= self.gas@.update(kind.id() as int, sat_u64(self.gas@[kind.id() as int] + gas)));
        res
    }

    /// Removes up to `gas` from `kind` (never below zero) and the same amount
    /// from the total (clamped at zero).
    pub fn saturating_decrement(&self, kind: ResourceKind, gas: u64) -> (r: Self)
        ensures
            ({
                let current = self.gas_view()[kind.id() as int];
                let reduced = if gas < current { gas } else { current };
                &&& r.gas_view() == self.gas_view().update(kind.id() as int, (current - reduced) as u64)
                &&& r.total_view() == sub_clamped(self.total_view(), reduced)
                &&& r.refund_view() == self.refund_view()
            }),
    {
        let k = kind.as_index();
        let mut res = *self;
        let current = res.gas[k];
        let reduced = if gas < current { gas } else { current };
        res.gas[k] = current - reduced;
        res.total = res.total.saturating_sub(reduced);
        assert(res.gas@ =~= self.gas@.update(kind.id() as int, (current - reduced) as u64));
        res
    }

    /// Adds `gas` to `kind` and to the total in place, each clamped at `u64::MAX`.
    pub fn saturating_increment_into(&mut self, kind: ResourceKind, gas: u64)
        ensures
            Self::is_saturating_increment(*old(self), kind, gas, *final(self)),
    {
        let ghost orig = *self;
        let k = kind.as_index();
        self.gas[k] = self.gas[k].saturating_add(gas);
        self.total = self.total.saturating_add(gas);
        assert(self.gas@ =~= orig.gas@.update(kind.id() as int, sat_u64(orig.gas@[kind.id() as int] + gas)));
    }

    /// Recomputes the total from the kinds; returns whether the sum overflowed,
    /// in which case the total is `u64::MAX`.
    pub fn recompute_total(&mut self) -> (overflow: bool)
        ensures
            final(self).gas_view() == old(self).gas_view(),
            final(self).refund_view() == old(self).refund_view(),
            overflow == (gas_sum(old(self).gas_view()) > u64_max()),
            final(self).total_view() == sat_u64(gas_sum(old(self).gas_view())),
    {
        self.total = 0;
        let mut i: usize = 0;
        proof {
            assert(self.gas@.take(0) =~= Seq::<u64>::empty());
        }
        while i < 8
            invariant
                i <= 8,
                self.gas == old(self).gas,
                self.refund == old(self).refund,
                self.total == gas_sum(self.gas@.take(i as int)),
            decreases 8 - i,
        {
            proof {
                lemma_gas_sum_take(self.gas@, i as int);
            }
            let (sum, overflow) = saturating_scalar_add(self.total, self.gas[i]);
            if overflow {
                proof {
                    lemma_gas_sum_prefix_mono(self.gas@, i + 1, 8);
                    assert(self.gas@.take(8) =~= self.gas@);
                }
                self.total = u64::MAX;
                return true;
            }
            self.total = sum;
            i += 1;
        }
        assert(self.gas@.take(8) =~= self.gas@);
        false
    }
}

/// Law: every checked operation keeps the total equal to the sum of the
/// per-kind amounts: `safe_add` of two consistent values, and `safe_sub` or
/// `safe_increment` of a consistent value, give a consistent value when they
/// do not report overflow.
pub proof fn law_checked_ops_keep_total(a: MultiGas, b: MultiGas, r: MultiGas, s: MultiGas, k: ResourceKind, g: u64, t: MultiGas)
    requires
        a.is_consistent(),
        b.is_consistent(),
        !(kinds_add_overflow(a.gas_view(), b.gas_view()) || a.total_view() + b.total_view() > u64_max() || a.refund_view() + b.refund_view() > u64_max()),
        r.gas_view() == Seq::new(8, |i: int| (a.gas_view()[i] + b.gas_view()[i]) as u64),
        r.total_view() == a.total_view() + b.total_view(),
        !(kinds_sub_underflow(a.gas_view(), b.gas_view()) || a.refund_view() < b.refund_view()),
        s.gas_view() == Seq::new(8, |i: int| (a.gas_view()[i] - b.gas_view()[i]) as u64),
        s.total_view() == sat_u64(gas_sum(s.gas_view())),
        !(a.gas_view()[k.id() as int] + g > u64_max() || a.total_view() + g > u64_max()),
        t.gas_view() == a.gas_view().update(k.id() as int, (a.gas_view()[k.id() as int] + g) as u64),
        t.total_view() == a.total_view() + g,
    ensures
        r.is_consistent(),
        s.is_consistent(),
        t.is_consistent(),
{
    broadcast use MultiGas::lemma_gas_view_len;
    let av = a.gas_view();
    let bv = b.gas_view();
    lemma_gas_sum_add(av, bv, r.gas_view());
    lemma_gas_sum_add(s.gas_view(), bv, av);
    lemma_gas_sum_nonneg(bv);
    lemma_gas_sum_nonneg(s.gas_view());
    let d = Seq::new(8, |i: int| if i == k.id() { g } else { 0u64 });
    lemma_gas_sum_add(av, d, t.gas_view());
    assert(gas_sum(d) == g) by {
        reveal_with_fuel(gas_sum, 9);
    }
}

/// Law: subtracting what was just added gives back the value added to, for a
/// consistent value and an addition that did not overflow.
pub proof fn law_safe_sub_undoes_safe_add(a: MultiGas, b: MultiGas, c: MultiGas, d: MultiGas)
    requires
        a.is_consistent(),
        c.gas_view() == Seq::new(8, |i: int| (a.gas_view()[i] + b.gas_view()[i]) as u64),
        c.refund_view() == a.refund_view() + b.refund_view(),
        !kinds_add_overflow(a.gas_view(), b.gas_view()),
        d.gas_view() == Seq::new(8, |i: int| (c.gas_view()[i] - b.gas_view()[i]) as u64),
        d.refund_view() == c.refund_view() - b.refund_view(),
        d.total_view() == sat_u64(gas_sum(d.gas_view())),
    ensures
        !kinds_sub_underflow(c.gas_view(), b.gas_view()),
        c.refund_view() >= b.refund_view(),
        d == a,
{
    broadcast use MultiGas::lemma_gas_view_len;
    assert(d.gas_view() =~= a.gas_view());
    MultiGas::lemma_view_ext(d, a);
}

/// Law: the in-place and the copying saturating additions agree: two results
/// that both meet the saturating-sum description are the same value.
pub proof fn law_saturating_sum_unique(a: MultiGas, b: MultiGas, r1: MultiGas, r2: MultiGas)
    requires
        MultiGas::is_saturating_sum(a, b, r1),
        MultiGas::is_saturating_sum(a, b, r2),
    ensures
        r1 == r2,
{
    MultiGas::lemma_view_ext(r1, r2);
}

/// Law: the in-place and the copying saturating increments agree.
pub proof fn law_saturating_increment_unique(a: MultiGas, k: ResourceKind, g: u64, r1: MultiGas, r2: MultiGas)
    requires
        MultiGas::is_saturating_increment(a, k, g, r1),
        MultiGas::is_saturating_increment(a, k, g, r2),
    ensures
        r1 == r2,
{
    MultiGas::lemma_view_ext(r1, r2);
}

} // verus!
