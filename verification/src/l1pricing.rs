//! The L1 pricing state: what the chain charges for the L1 data of its
//! transactions, and how that price follows what batch posters spend.
use vstd::prelude::*;

use core::convert::Infallible;
use revm::database::InMemoryDB;

use crate::batch_poster::{
    adjusted_total, entry_due_slot, entry_pay_to_slot, i256_of, i256_raw, lemma_i256_raw, table_keys_no_collision,
    table_slot, BatchPosterState, BatchPostersTable, OpenPosterResult,
};
use crate::burn::Burner;
use crate::multigas::{sat_u64, u64_max};
use crate::pricing_formulas::{
    adjusted_price, adjusted_price_v1, allocation_fraction, alloc_denominator, alloc_numerator, cap_spending,
    capped_spending, effective_last_update, min_of, price_after_change, price_change, price_change_v1,
    signed_of_word, units_allocated, units_to_allocate, units_to_allocate_wrapping,
};
use crate::statedb::{
    balance_in, balance_value, db_balances, db_slot_written, db_slots, moved, read_balance, slot_value, transfer,
    transfer_balances, transfer_result, TransferError,
};
use crate::storage::{
    address_word, offsets_distinct, slot_of, sub_storage_key, word_address, Storage, StorageBackedAddress,
    StorageBackedBigInt, StorageBackedBigUint, StorageBackedInt64, StorageBackedUint64,
};
use crate::word::{
    abs, clamp_i256, clamp_u256, i256_max, i256_min, i256_saturating_add, i256_saturating_mul, i256_saturating_sub, u256_max,
    u256_div, u256_saturating_add, u256_saturating_mul, Address, I256, U256,
};

verus! {

/// Offset of the address that rewards are paid to.
pub const PAY_REWARDS_TO_OFFSET: u64 = 0;
/// Offset of the equilibration units.
pub const EQUILIBRATION_UNITS_OFFSET: u64 = 1;
/// Offset of the inertia.
pub const INERTIA_OFFSET: u64 = 2;
/// Offset of the reward per unit.
pub const PER_UNIT_REWARD_OFFSET: u64 = 3;
/// Offset of the time of the last update.
pub const LAST_UPDATE_TIME_OFFSET: u64 = 4;
/// Offset of the rewards owed.
pub const FUNDS_DUE_FOR_REWARDS_OFFSET: u64 = 5;
/// Offset of the units collected since the last update.
pub const UNITS_SINCE_OFFSET: u64 = 6;
/// Offset of the price per unit.
pub const PRICE_PER_UNIT_OFFSET: u64 = 7;
/// Offset of the surplus at the last update.
pub const LAST_SURPLUS_OFFSET: u64 = 8;
/// Offset of the gas cost per batch.
pub const PER_BATCH_GAS_COST_OFFSET: u64 = 9;
/// Offset of the cap on amortized cost, in basis points.
pub const AMORTIZED_COST_CAP_BIPS_OFFSET: u64 = 10;
/// Offset of the L1 fees collected and not yet paid out.
pub const L1_FEES_AVAILABLE_OFFSET: u64 = 11;
/// Offset of the parent-chain gas floor per token.
pub const GAS_FLOOR_PER_TOKEN_OFFSET: u64 = 12;

/// The initial inertia.
pub const INITIAL_INERTIA: u64 = 10;
/// The initial reward per unit.
pub const INITIAL_PER_UNIT_REWARD: u64 = 10;
/// The gas of a non-zero calldata byte.
pub const TX_DATA_NON_ZERO_GAS_EIP2028: u64 = 16;
/// The initial equilibration units: one minute at 100000 bytes a second.
pub const INITIAL_EQUILIBRATION_UNITS_V0: u64 = 60 * 16 * 100_000;

/// The first version that checks the times of an update.
pub const ARBOS_VERSION_2: u64 = 2;
/// The first version that caps amortized cost.
pub const ARBOS_VERSION_3: u64 = 3;
/// The first version that stores the last surplus with its sign.
pub const ARBOS_VERSION_7: u64 = 7;
/// The first version that pays from the L1 fees available.
pub const ARBOS_VERSION_10: u64 = 10;
/// The first version with a parent-chain gas floor.
pub const ARBOS_VERSION_50: u64 = 50;

/// The bytes of the address that posts batches.
pub open spec fn batch_poster_bytes() -> Seq<u8> {
    seq![
        0xa4u8, 0xb0u8, 0x00u8, 0x00u8, 0x00u8, 0x00u8, 0x00u8, 0x00u8, 0x00u8, 0x00u8,
        0x00u8, 0x73u8, 0x65u8, 0x71u8, 0x75u8, 0x65u8, 0x6eu8, 0x63u8, 0x65u8, 0x72u8,
    ]
}

/// The bytes of the account that holds the L1 fees collected.
pub open spec fn funds_pool_bytes() -> Seq<u8> {
    seq![
        0x00u8, 0x00u8, 0x00u8, 0x00u8, 0x00u8, 0x00u8, 0x00u8, 0x00u8, 0x00u8, 0x00u8,
        0x00u8, 0x00u8, 0x00u8, 0x00u8, 0x00u8, 0x00u8, 0x00u8, 0x00u8, 0x00u8, 0x6cu8,
    ]
}

/// The address that posts batches, `0xA4B000000000000000000073657175656e636572`.
pub fn batch_poster_address() -> (r: Address)
    ensures
        r.bytes@ == batch_poster_bytes(),
{
    let r = Address {
        bytes: [
            0xa4, 0xb0, 0x00, 0x00, 0x00, 0x00, 0x00, 0x00, 0x00, 0x00, 0x00, 0x73, 0x65, 0x71, 0x75, 0x65,
            0x6e, 0x63, 0x65, 0x72,
        ],
    };
    assert(r.bytes@ =~= batch_poster_bytes());
    r
}

/// The account that holds the L1 fees collected, `0x...6c`.
pub fn l1_pricer_funds_pool_address() -> (r: Address)
    ensures
        r.bytes@ == funds_pool_bytes(),
{
    let r = Address {
        bytes: [
            0x00, 0x00, 0x00, 0x00, 0x00, 0x00, 0x00, 0x00, 0x00, 0x00, 0x00, 0x00, 0x00, 0x00, 0x00, 0x00,
            0x00, 0x00, 0x00, 0x6c,
        ],
    };
    assert(r.bytes@ =~= funds_pool_bytes());
    r
}

/// The key of the batch posters table's space, child `[0]` of the space `sk`.
pub open spec fn table_key(sk: Seq<u8>) -> Seq<u8> {
    sub_storage_key(sk, seq![0u8])
}

/// The key of the space of the table's set of posters.
pub open spec fn poster_set_key(sk: Seq<u8>) -> Seq<u8> {
    sub_storage_key(table_key(sk), seq![0u8])
}

/// The key of the space of the offsets of the table's posters.
pub open spec fn poster_index_key(sk: Seq<u8>) -> Seq<u8> {
    sub_storage_key(poster_set_key(sk), seq![0u8])
}

/// The key of the space of the table's entries.
pub open spec fn poster_info_key(sk: Seq<u8>) -> Seq<u8> {
    sub_storage_key(table_key(sk), seq![1u8])
}

/// The slot of the table's total.
pub open spec fn poster_total_slot(sk: Seq<u8>) -> int {
    slot_of(table_key(sk), 0)
}

/// Whether `s` is a slot of the batch posters table of the space `sk`.
pub open spec fn in_table_of(sk: Seq<u8>, s: int) -> bool {
    table_slot(poster_set_key(sk), poster_index_key(sk), poster_info_key(sk), poster_total_slot(sk), s)
}

/// Whether `s` is the slot of one of the thirteen fields of the space `sk`.
pub open spec fn is_field_slot(sk: Seq<u8>, s: int) -> bool {
    exists|i: int| 0 <= i <= 12 && s == slot_of(sk, i)
}

/// The slots of the L1 pricing state kept in the space `sk` are pairwise
/// distinct (they are unless keccak256 collides).
pub open spec fn l1_keys_no_collision(sk: Seq<u8>) -> bool {
    &&& table_keys_no_collision(poster_set_key(sk), poster_index_key(sk), poster_info_key(sk), poster_total_slot(sk))
    &&& offsets_distinct(sk, 12)
    &&& forall|i: int| 0 <= i <= 12 ==> !in_table_of(sk, #[trigger] slot_of(sk, i))
}

/// The surplus of the fees available over what is owed to posters and for
/// rewards: the fees (at most the largest signed word) minus the sum of the
/// two amounts owed, each step clamped to the signed range.
pub open spec fn surplus_of(fees: int, owed_to_posters: int, owed_for_rewards: int) -> int {
    clamp_i256((if fees <= i256_max() { fees } else { i256_max() }) - clamp_i256(owed_to_posters + owed_for_rewards))
}

/// The L1 pricing state.
pub struct L1PricingState<B: Burner> {
    pub(crate) batch_poster_table: BatchPostersTable<B>,
    pub(crate) pay_rewards_to: StorageBackedAddress<B>,
    pub(crate) equilibration_units: StorageBackedBigUint<B>,
    pub(crate) inertia: StorageBackedUint64<B>,
    pub(crate) per_unit_reward: StorageBackedUint64<B>,
    pub(crate) last_update_time: StorageBackedUint64<B>,
    pub(crate) funds_due_for_rewards: StorageBackedBigInt<B>,
    pub(crate) units_since_update: StorageBackedUint64<B>,
    pub(crate) price_per_unit: StorageBackedBigUint<B>,
    pub(crate) last_surplus: StorageBackedBigInt<B>,
    pub(crate) per_batch_gas_cost: StorageBackedInt64<B>,
    pub(crate) amortized_cost_cap_bips: StorageBackedUint64<B>,
    pub(crate) l1_fees_available: StorageBackedBigUint<B>,
    pub(crate) gas_floor_per_token: StorageBackedUint64<B>,
    pub(crate) arbos_version: u64,
    pub(crate) storage_key: Ghost<Seq<u8>>,
}

/// Why an L1 pricing operation was refused.
#[derive(Clone, Copy, Debug, PartialEq, Eq, Structural)]
pub enum L1PricingError {
    /// The operation does not exist at this ArbOS version.
    NotSupported,
    /// The fees available are less than the amount.
    InsufficientFunds,
    /// The balance transfer failed.
    Transfer(TransferError),
}

/// Why updating for a batch poster's spending failed.
#[derive(Debug)]
pub enum UpdateSpendingError<E> {
    Db(E),
    InvalidTime,
}

impl<B: Burner> L1PricingState<B> {
    /// The account whose storage holds the state.
    pub closed spec fn account(&self) -> Seq<u8> {
        self.pay_rewards_to.account_view()
    }

    /// The key of the space that holds the state.
    pub closed spec fn key(&self) -> Seq<u8> {
        self.storage_key@
    }

    /// The ArbOS version the state was opened at.
    pub closed spec fn version(&self) -> u64 {
        self.arbos_version
    }

    /// The batch posters table.
    pub closed spec fn table(&self) -> BatchPostersTable<B> {
        self.batch_poster_table
    }

    /// The slot of field `i`.
    pub open spec fn field_slot(&self, i: int) -> int {
        slot_of(self.key(), i)
    }

    /// The word that field `i` holds.
    pub open spec fn field(&self, db: InMemoryDB, i: int) -> int {
        slot_value(db, self.account(), self.field_slot(i))
    }

    /// The words of the thirteen fields, in offset order.
    pub open spec fn fields(&self, db: InMemoryDB) -> Seq<int> {
        Seq::new(13, |i: int| self.field(db, i))
    }

    /// The address that rewards are paid to.
    pub open spec fn pay_rewards_to_in(&self, db: InMemoryDB) -> Seq<u8> {
        word_address(self.field(db, 0))
    }

    /// The rewards owed.
    pub open spec fn funds_due_for_rewards_in(&self, db: InMemoryDB) -> int {
        i256_of(self.field(db, 5))
    }

    /// The surplus at the last update.
    pub open spec fn last_surplus_in(&self, db: InMemoryDB) -> int {
        i256_of(self.field(db, 8))
    }

    /// Whether `s` is one of the state's slots: a field or a slot of the table.
    pub open spec fn in_footprint(&self, s: int) -> bool {
        is_field_slot(self.key(), s) || in_table_of(self.key(), s)
    }

    /// Whether `db2` differs from `db1` at most in the state's slots and in balances.
    pub open spec fn slots_outside_kept(&self, db1: InMemoryDB, db2: InMemoryDB) -> bool {
        forall|acc: Seq<u8>, s: int|
            !(acc == self.account() && self.in_footprint(s)) ==> #[trigger] slot_value(db2, acc, s) == slot_value(
                db1,
                acc,
                s,
            )
    }

    /// How the state's parts fit together, whatever the storage holds.
    pub closed spec fn inv(&self) -> bool {
        let sk = self.key();
        let t = self.batch_poster_table;
        &&& l1_keys_no_collision(sk)
        &&& t.inv()
        &&& t.account() == self.account()
        &&& t.total_slot() == poster_total_slot(sk)
        &&& t.info_key() == poster_info_key(sk)
        &&& t.addrs().backing_key() == poster_set_key(sk)
        &&& t.addrs().index_key() == poster_index_key(sk)
        &&& self.pay_rewards_to.slot_view() == slot_of(sk, 0)
        &&& self.equilibration_units.account_view() == self.account()
        &&& self.equilibration_units.slot_view() == slot_of(sk, 1)
        &&& self.inertia.account_view() == self.account()
        &&& self.inertia.slot_view() == slot_of(sk, 2)
        &&& self.per_unit_reward.account_view() == self.account()
        &&& self.per_unit_reward.slot_view() == slot_of(sk, 3)
        &&& self.last_update_time.account_view() == self.account()
        &&& self.last_update_time.slot_view() == slot_of(sk, 4)
        &&& self.funds_due_for_rewards.account_view() == self.account()
        &&& self.funds_due_for_rewards.slot_view() == slot_of(sk, 5)
        &&& self.units_since_update.account_view() == self.account()
        &&& self.units_since_update.slot_view() == slot_of(sk, 6)
        &&& self.price_per_unit.account_view() == self.account()
        &&& self.price_per_unit.slot_view() == slot_of(sk, 7)
        &&& self.last_surplus.account_view() == self.account()
        &&& self.last_surplus.slot_view() == slot_of(sk, 8)
        &&& self.per_batch_gas_cost.account_view() == self.account()
        &&& self.per_batch_gas_cost.slot_view() == slot_of(sk, 9)
        &&& self.amortized_cost_cap_bips.account_view() == self.account()
        &&& self.amortized_cost_cap_bips.slot_view() == slot_of(sk, 10)
        &&& self.l1_fees_available.account_view() == self.account()
        &&& self.l1_fees_available.slot_view() == slot_of(sk, 11)
        &&& self.gas_floor_per_token.account_view() == self.account()
        &&& self.gas_floor_per_token.slot_view() == slot_of(sk, 12)
    }

    /// The batch posters table, to work on in place.
    pub fn batch_poster_table(&mut self) -> (r: &mut BatchPostersTable<B>)
        ensures
            *r == old(self).table(),
            final(self).table() == *final(r),
            final(self).account() == old(self).account(),
            final(self).key() == old(self).key(),
            final(self).version() == old(self).version(),
            final(self).fields_kept(*old(self)),
    {
        &mut self.batch_poster_table
    }

    /// Whether the handles of the thirteen fields are those of `other`.
    pub closed spec fn fields_kept(&self, other: Self) -> bool {
        &&& self.pay_rewards_to == other.pay_rewards_to
        &&& self.equilibration_units == other.equilibration_units
        &&& self.inertia == other.inertia
        &&& self.per_unit_reward == other.per_unit_reward
        &&& self.last_update_time == other.last_update_time
        &&& self.funds_due_for_rewards == other.funds_due_for_rewards
        &&& self.units_since_update == other.units_since_update
        &&& self.price_per_unit == other.price_per_unit
        &&& self.last_surplus == other.last_surplus
        &&& self.per_batch_gas_cost == other.per_batch_gas_cost
        &&& self.amortized_cost_cap_bips == other.amortized_cost_cap_bips
        &&& self.l1_fees_available == other.l1_fees_available
        &&& self.gas_floor_per_token == other.gas_floor_per_token
        &&& self.arbos_version == other.arbos_version
        &&& self.storage_key == other.storage_key
    }

    /// A state whose fields are those of `other` and whose table is
    /// consistent with its key is consistent.
    pub proof fn lemma_fields_kept(&self, other: Self)
        requires
            other.inv(),
            self.fields_kept(other),
            self.table().inv(),
            self.table().account() == other.table().account(),
            self.table().total_slot() == other.table().total_slot(),
            self.table().info_key() == other.table().info_key(),
            self.table().addrs().backing_key() == other.table().addrs().backing_key(),
            self.table().addrs().index_key() == other.table().addrs().index_key(),
        ensures
            self.inv(),
            self.account() == other.account(),
            self.key() == other.key(),
            self.version() == other.version(),
    {
    }

    /// The address that rewards are paid to.
    pub fn pay_rewards_to(&self, db: &InMemoryDB) -> (r: Address)
        requires
            self.inv(),
        ensures
            r.bytes@ == self.pay_rewards_to_in(*db),
    {
        self.pay_rewards_to.get(db)
    }

    /// Sets the address that rewards are paid to.
    pub fn set_pay_rewards_to(&mut self, db: &mut InMemoryDB, addr: Address)
        requires
            old(self).inv(),
        ensures
            *final(self) == *old(self),
            db_slot_written(*old(db), *final(db), old(self).account(), old(self).field_slot(0), address_word(addr.bytes@)),
    {
        self.pay_rewards_to.set(db, addr)
    }

    /// The equilibration units.
    pub fn equilibration_units(&self, db: &InMemoryDB) -> (r: U256)
        requires
            self.inv(),
        ensures
            r.value() == self.field(*db, 1),
    {
        self.equilibration_units.get(db)
    }

    /// Sets the equilibration units.
    pub fn set_equilibration_units(&mut self, db: &mut InMemoryDB, equil_units: U256)
        requires
            old(self).inv(),
        ensures
            *final(self) == *old(self),
            db_slot_written(*old(db), *final(db), old(self).account(), old(self).field_slot(1), equil_units.value()),
    {
        self.equilibration_units.set_checked(db, equil_units)
    }

    /// The inertia; the stored word must fit a `u64`.
    pub fn inertia(&self, db: &InMemoryDB) -> (r: u64)
        requires
            self.inv(),
            self.field(*db, 2) <= u64_max(),
        ensures
            r == self.field(*db, 2),
    {
        self.inertia.get(db)
    }

    /// Sets the inertia.
    pub fn set_inertia(&mut self, db: &mut InMemoryDB, inertia: u64)
        requires
            old(self).inv(),
        ensures
            *final(self) == *old(self),
            db_slot_written(*old(db), *final(db), old(self).account(), old(self).field_slot(2), inertia as int),
    {
        self.inertia.set(db, inertia)
    }

    /// The reward per unit; the stored word must fit a `u64`.
    pub fn per_unit_reward(&self, db: &InMemoryDB) -> (r: u64)
        requires
            self.inv(),
            self.field(*db, 3) <= u64_max(),
        ensures
            r == self.field(*db, 3),
    {
        self.per_unit_reward.get(db)
    }

    /// Sets the reward per unit.
    pub fn set_per_unit_reward(&mut self, db: &mut InMemoryDB, wei_per_unit: u64)
        requires
            old(self).inv(),
        ensures
            *final(self) == *old(self),
            db_slot_written(*old(db), *final(db), old(self).account(), old(self).field_slot(3), wei_per_unit as int),
    {
        self.per_unit_reward.set(db, wei_per_unit)
    }

    /// The time of the last update; the stored word must fit a `u64`.
    pub fn last_update_time(&self, db: &InMemoryDB) -> (r: u64)
        requires
            self.inv(),
            self.field(*db, 4) <= u64_max(),
        ensures
            r == self.field(*db, 4),
    {
        self.last_update_time.get(db)
    }

    /// Sets the time of the last update.
    pub fn set_last_update_time(&mut self, db: &mut InMemoryDB, t: u64)
        requires
            old(self).inv(),
        ensures
            *final(self) == *old(self),
            db_slot_written(*old(db), *final(db), old(self).account(), old(self).field_slot(4), t as int),
    {
        self.last_update_time.set(db, t)
    }

    /// The rewards owed.
    pub fn funds_due_for_rewards(&self, db: &InMemoryDB) -> (r: I256)
        requires
            self.inv(),
        ensures
            r.value() == self.funds_due_for_rewards_in(*db),
            r.raw.value() == self.field(*db, 5),
    {
        self.funds_due_for_rewards.get(db)
    }

    /// Sets the rewards owed.
    pub fn set_funds_due_for_rewards(&mut self, db: &mut InMemoryDB, amt: I256)
        requires
            old(self).inv(),
        ensures
            *final(self) == *old(self),
            db_slot_written(*old(db), *final(db), old(self).account(), old(self).field_slot(5), amt.raw.value()),
    {
        self.funds_due_for_rewards.set_saturating_with_warning(db, amt, "L1 pricer funds due for rewards")
    }

    /// The units collected since the last update; the stored word must fit a `u64`.
    pub fn units_since_update(&self, db: &InMemoryDB) -> (r: u64)
        requires
            self.inv(),
            self.field(*db, 6) <= u64_max(),
        ensures
            r == self.field(*db, 6),
    {
        self.units_since_update.get(db)
    }

    /// Sets the units collected since the last update.
    pub fn set_units_since_update(&mut self, db: &mut InMemoryDB, units: u64)
        requires
            old(self).inv(),
        ensures
            *final(self) == *old(self),
            db_slot_written(*old(db), *final(db), old(self).account(), old(self).field_slot(6), units as int),
    {
        self.units_since_update.set(db, units)
    }

    /// The surplus at the last update.
    pub fn last_surplus(&self, db: &InMemoryDB) -> (r: I256)
        requires
            self.inv(),
        ensures
            r.value() == self.last_surplus_in(*db),
            r.raw.value() == self.field(*db, 8),
    {
        self.last_surplus.get(db)
    }

    /// Sets the surplus at the last update: before version 7 its magnitude,
    /// from then on its two's-complement bits.
    pub fn set_last_surplus(&mut self, db: &mut InMemoryDB, val: I256, arbos_version: u64)
        requires
            old(self).inv(),
        ensures
            *final(self) == *old(self),
            db_slot_written(
                *old(db),
                *final(db),
                old(self).account(),
                old(self).field_slot(8),
                if arbos_version < ARBOS_VERSION_7 { abs(val.value()) } else { val.raw.value() },
            ),
    {
        if arbos_version < ARBOS_VERSION_7 {
            self.last_surplus.set_pre_version7(db, val)
        } else {
            self.last_surplus.set_saturating_with_warning(db, val, "L1 pricer last surplus")
        }
    }

    /// Adds `units` to the units collected since the last update, stopping
    /// at `u64::MAX`; the stored word must fit a `u64`.
    pub fn add_to_units_since_update(&mut self, db: &mut InMemoryDB, units: u64)
        requires
            old(self).inv(),
            old(self).field(*old(db), 6) <= u64_max(),
        ensures
            *final(self) == *old(self),
            db_slot_written(
                *old(db),
                *final(db),
                old(self).account(),
                old(self).field_slot(6),
                sat_u64(old(self).field(*old(db), 6) + units) as int,
            ),
    {
        let old_units = self.units_since_update.get(db);
        self.units_since_update.set(db, old_units.saturating_add(units))
    }

    /// The price per unit.
    pub fn price_per_unit(&self, db: &InMemoryDB) -> (r: U256)
        requires
            self.inv(),
        ensures
            r.value() == self.field(*db, 7),
    {
        self.price_per_unit.get(db)
    }

    /// Sets the price per unit.
    pub fn set_price_per_unit(&mut self, db: &mut InMemoryDB, price: U256)
        requires
            old(self).inv(),
        ensures
            *final(self) == *old(self),
            db_slot_written(*old(db), *final(db), old(self).account(), old(self).field_slot(7), price.value()),
    {
        self.price_per_unit.set_checked(db, price)
    }

    /// Sets the parent-chain gas floor per token; before version 50 there is
    /// none, and the call fails with `NotSupported`, writing nothing.
    pub fn set_parent_gas_floor_per_token(&mut self, db: &mut InMemoryDB, floor: u64) -> (r: Result<(), L1PricingError>)
        requires
            old(self).inv(),
        ensures
            *final(self) == *old(self),
            old(self).version() >= ARBOS_VERSION_50 ==> r is Ok && db_slot_written(
                *old(db),
                *final(db),
                old(self).account(),
                old(self).field_slot(12),
                floor as int,
            ),
            old(self).version() < ARBOS_VERSION_50 ==> r == Err::<(), L1PricingError>(L1PricingError::NotSupported)
                && *final(db) == *old(db),
    {
        if self.arbos_version < ARBOS_VERSION_50 {
            return Err(L1PricingError::NotSupported);
        }
        self.gas_floor_per_token.set(db, floor);
        Ok(())
    }

    /// The parent-chain gas floor per token: zero before version 50, the
    /// stored value (which must fit a `u64`) from then on.
    pub fn parent_gas_floor_per_token(&self, db: &InMemoryDB) -> (r: u64)
        requires
            self.inv(),
            self.version() >= ARBOS_VERSION_50 ==> self.field(*db, 12) <= u64_max(),
        ensures
            r == if self.version() < ARBOS_VERSION_50 { 0 } else { self.field(*db, 12) },
    {
        if self.arbos_version < ARBOS_VERSION_50 {
            return 0;
        }
        self.gas_floor_per_token.get(db)
    }

    /// The gas cost per batch: the low 64 bits of the stored word, which must
    /// fit a `u64`, read as an `i64`.
    pub fn per_batch_gas_cost(&self, db: &InMemoryDB) -> (r: i64)
        requires
            self.inv(),
            self.field(*db, 9) <= u64_max(),
        ensures
            r == (self.field(*db, 9) as u64) as i64,
    {
        self.per_batch_gas_cost.get(db)
    }

    /// Sets the gas cost per batch (its bits, as a `u64`).
    pub fn set_per_batch_gas_cost(&mut self, db: &mut InMemoryDB, cost: i64)
        requires
            old(self).inv(),
        ensures
            *final(self) == *old(self),
            db_slot_written(*old(db), *final(db), old(self).account(), old(self).field_slot(9), (cost as u64) as int),
    {
        self.per_batch_gas_cost.set(db, cost)
    }

    /// The cap on amortized cost, in basis points; the stored word must fit a `u64`.
    pub fn amortized_cost_cap_bips(&self, db: &InMemoryDB) -> (r: u64)
        requires
            self.inv(),
            self.field(*db, 10) <= u64_max(),
        ensures
            r == self.field(*db, 10),
    {
        self.amortized_cost_cap_bips.get(db)
    }

    /// Sets the cap on amortized cost.
    pub fn set_amortized_cost_cap_bips(&mut self, db: &mut InMemoryDB, cap: u64)
        requires
            old(self).inv(),
        ensures
            *final(self) == *old(self),
            db_slot_written(*old(db), *final(db), old(self).account(), old(self).field_slot(10), cap as int),
    {
        self.amortized_cost_cap_bips.set(db, cap)
    }

    /// The L1 fees collected and not yet paid out.
    pub fn l1_fees_available(&self, db: &InMemoryDB) -> (r: U256)
        requires
            self.inv(),
        ensures
            r.value() == self.field(*db, 11),
    {
        self.l1_fees_available.get(db)
    }

    /// Sets the L1 fees available.
    pub fn set_l1_fees_available(&mut self, db: &mut InMemoryDB, val: U256)
        requires
            old(self).inv(),
        ensures
            *final(self) == *old(self),
            db_slot_written(*old(db), *final(db), old(self).account(), old(self).field_slot(11), val.value()),
    {
        self.l1_fees_available.set_checked(db, val)
    }

    /// Adds `delta` to the L1 fees available, stopping at the largest word,
    /// and returns the new amount.
    pub fn add_to_l1_fees_available(&mut self, db: &mut InMemoryDB, delta: U256) -> (r: U256)
        requires
            old(self).inv(),
        ensures
            *final(self) == *old(self),
            r.value() == clamp_u256(old(self).field(*old(db), 11) + delta.value()),
            db_slot_written(*old(db), *final(db), old(self).account(), old(self).field_slot(11), r.value()),
    {
        let old_fees = self.l1_fees_available.get(db);
        let new_fees = u256_saturating_add(old_fees, delta);
        self.l1_fees_available.set_checked(db, new_fees);
        new_fees
    }

    /// The surplus of the L1 fees available over what is owed to batch
    /// posters and for rewards.
    pub fn get_l1_pricing_surplus(&self, db: &InMemoryDB) -> (r: I256)
        requires
            self.inv(),
        ensures
            r.value() == surplus_of(
                self.field(*db, 11),
                self.table().total_in(*db),
                self.funds_due_for_rewards_in(*db),
            ),
    {
        proof {
            self.lemma_table();
        }
        let funds_due_for_refunds = self.batch_poster_table.total_funds_due(db);
        let funds_due_for_rewards = self.funds_due_for_rewards.get(db);
        let have_funds = self.l1_fees_available.get(db);
        let need_funds = i256_saturating_add(funds_due_for_refunds, funds_due_for_rewards);
        let have_funds_signed = I256::from_u256_saturating(have_funds);
        i256_saturating_sub(have_funds_signed, need_funds)
    }

    /// Pays `amount` from the L1 fees pool to `recipient` and takes it off
    /// the L1 fees available, returning what is left. A failed balance
    /// transfer is returned as `Transfer`; where the amount is more than the
    /// fees available, the transfer stands and `InsufficientFunds` is
    /// returned without touching the fees available.
    pub fn transfer_from_l1_fees_available(&mut self, db: &mut InMemoryDB, recipient: Address, amount: U256) -> (r: Result<
        U256,
        L1PricingError,
    >)
        requires
            old(self).inv(),
        ensures
            *final(self) == *old(self),
            db_balances(*final(db)) == transfer_balances(*old(db), funds_pool_bytes(), recipient.bytes@, amount.value()),
            match transfer_result(*old(db), funds_pool_bytes(), recipient.bytes@, amount.value()) {
                Err(e) => r == Err::<U256, L1PricingError>(L1PricingError::Transfer(e)) && db_slots(*final(db)) == db_slots(
                    *old(db),
                ),
                Ok(()) => if amount.value() > old(self).field(*old(db), 11) {
                    r == Err::<U256, L1PricingError>(L1PricingError::InsufficientFunds) && db_slots(*final(db))
                        == db_slots(*old(db))
                } else {
                    &&& r matches Ok(v) && v.value() == old(self).field(*old(db), 11) - amount.value()
                    &&& db_slots(*final(db)) == db_slots(*old(db)).insert(
                        (old(self).account(), old(self).field_slot(11)),
                        old(self).field(*old(db), 11) - amount.value(),
                    )
                },
            },
    {
        let pool = l1_pricer_funds_pool_address();
        match transfer(db, pool, recipient, amount) {
            Err(e) => {
                return Err(L1PricingError::Transfer(e));
            },
            Ok(()) => {},
        }
        let old_fees = self.l1_fees_available.get(db);
        if old_fees.lt(&amount) {
            return Err(L1PricingError::InsufficientFunds);
        }
        let updated = crate::word::u256_saturating_sub(old_fees, amount);
        self.l1_fees_available.set_checked(db, updated);
        Ok(updated)
    }

    /// Pays `amount` from the L1 fees pool to `recipient` and takes it off
    /// the L1 fees available, returning what is left. The amount must be at
    /// most the fees available and the pool's balance, and the recipient's
    /// balance must have room for it.
    fn pay_from_l1_fees(&mut self, db: &mut InMemoryDB, recipient: Address, amount: U256) -> (r: U256)
        requires
            old(self).inv(),
            amount.value() <= old(self).field(*old(db), 11),
            amount.value() <= balance_value(*old(db), funds_pool_bytes()),
            recipient.bytes@ != funds_pool_bytes() ==> balance_value(*old(db), recipient.bytes@) + amount.value()
                <= u256_max(),
        ensures
            *final(self) == *old(self),
            r.value() == old(self).field(*old(db), 11) - amount.value(),
            db_slots(*final(db)) == db_slots(*old(db)).insert((old(self).account(), old(self).field_slot(11)), r.value()),
            db_balances(*final(db)) == moved(db_balances(*old(db)), funds_pool_bytes(), recipient.bytes@, amount.value()),
    {
        let pool = l1_pricer_funds_pool_address();
        let _ = transfer(db, pool, recipient, amount);
        let old_fees = self.l1_fees_available.get(db);
        let updated = crate::word::u256_saturating_sub(old_fees, amount);
        self.l1_fees_available.set_checked(db, updated);
        updated
    }

    /// The table inside a consistent state is consistent, and lives where the state says.
    pub proof fn lemma_table(&self)
        requires
            self.inv(),
        ensures
            self.table().inv(),
            self.table().account() == self.account(),
            self.table().total_slot() == poster_total_slot(self.key()),
            self.table().info_key() == poster_info_key(self.key()),
            self.table().addrs().backing_key() == poster_set_key(self.key()),
            self.table().addrs().index_key() == poster_index_key(self.key()),
            forall|s: int| #[trigger] self.table().in_footprint(s) == in_table_of(self.key(), s),
            forall|i: int| 0 <= i <= 12 ==> !self.table().in_footprint(#[trigger] self.field_slot(i)),
            l1_keys_no_collision(self.key()),
            offsets_distinct(self.key(), 12),
            forall|i: int| 0 <= i <= 12 ==> #[trigger] self.field_slot(i) != self.table().total_slot(),
            forall|i: int, q: Seq<u8>|
                0 <= i <= 12 && q.len() == 20 ==> #[trigger] self.field_slot(i) != #[trigger] self.table().due_slot(q)
                    && self.field_slot(i) != self.table().pay_to_slot(q),
    {
        assert forall|i: int, q: Seq<u8>|
            0 <= i <= 12 && q.len() == 20 implies #[trigger] self.field_slot(i) != #[trigger] self.table().due_slot(q)
                && self.field_slot(i) != self.table().pay_to_slot(q) by {
            assert(!in_table_of(self.key(), slot_of(self.key(), i)));
        }
    }
}

impl<B: Burner> L1PricingState<B> {
    /// Whether `db` is `db0` after the state was initialized with rewards
    /// paid to `recipient` and a price per unit of `base_fee`: the batch
    /// poster the only poster, owed nothing and paid at its own address,
    /// nothing owed in total, six fields set, the rest as it was.
    pub open spec fn initialized_in(&self, db0: InMemoryDB, db: InMemoryDB, recipient: Seq<u8>, base_fee: int) -> bool {
        let t = self.table();
        let bp = batch_poster_bytes();
        &&& t.valid(db)
        &&& t.posters(db) == seq![bp]
        &&& t.due_in(db, bp) == 0
        &&& t.pay_to_in(db, bp) == bp
        &&& t.total_in(db) == 0
        &&& forall|q: Seq<u8>| q.len() == 20 && q != bp ==> #[trigger] t.due_in(db, q) == t.due_in(db0, q)
            && t.pay_to_in(db, q) == t.pay_to_in(db0, q)
        &&& self.fields(db) == self.fields(db0).update(0, address_word(recipient)).update(
            1,
            INITIAL_EQUILIBRATION_UNITS_V0 as int,
        ).update(2, INITIAL_INERTIA as int).update(3, INITIAL_PER_UNIT_REWARD as int).update(5, 0).update(7, base_fee)
        &&& self.slots_outside_kept(db0, db)
        &&& db_balances(db) == db_balances(db0)
    }
}

impl<B: Burner> L1PricingState<B> {
    /// Law: a freshly stored state's batch posters table owes nothing, so its
    /// total is the sum of what its posters are owed.
    pub proof fn law_initialized_total_matches_dues(&self, db0: InMemoryDB, db: InMemoryDB, recipient: Seq<u8>, base_fee: int)
        requires
            self.initialized_in(db0, db, recipient, base_fee),
        ensures
            self.table().total_in(db) == 0,
            self.table().total_in(db) == self.table().dues_sum(db, self.table().posters(db)),
    {
        let t = self.table();
        let ps = t.posters(db);
        assert(ps.drop_last() =~= Seq::<Seq<u8>>::empty());
        assert(t.dues_sum(db, ps.drop_last()) == 0);
    }
}

/// Stores a fresh L1 pricing state in the space `sto`: a batch posters table
/// holding only the batch poster (paid at its own address), rewards paid to
/// `initial_rewards_recipient`, the initial equilibration units, inertia and
/// reward per unit, nothing owed for rewards, and `initial_l1_base_fee` as
/// the price per unit. The space's set of posters must hold no offset yet.
#[verifier::rlimit(50)]
pub fn initialize_l1_pricing_state<B: Burner + Clone>(
    sto: &Storage<B>,
    db: &mut InMemoryDB,
    initial_rewards_recipient: Address,
    initial_l1_base_fee: U256,
)
    requires
        l1_keys_no_collision(sto.storage_key@),
        forall|a: Seq<u8>|
            a.len() == 20 ==> #[trigger] slot_value(
                *old(db),
                sto.account.bytes@,
                slot_of(poster_index_key(sto.storage_key@), address_word(a)),
            ) == 0,
    ensures
        forall|st: L1PricingState<B>|
            st.inv() && st.key() == sto.storage_key@ && st.account() == sto.account.bytes@
                ==> #[trigger] st.initialized_in(*old(db), *final(db), initial_rewards_recipient.bytes@, initial_l1_base_fee.value()),
{
    let ghost db0 = *db;
    let ghost sk = sto.storage_key@;
    let ghost acct = sto.account.bytes@;
    let id: [u8; 1] = [0u8];
    assert(id@ =~= seq![0u8]);
    let bpt_storage = sto.open_cached_sub_storage(&id);
    BatchPostersTable::initialize(&bpt_storage, db);
    let ghost db1 = *db;
    let mut bp_table = BatchPostersTable::open(&bpt_storage);
    let bp = batch_poster_address();
    proof {
        let set = bp_table.addrs();
        assert(bp_table.no_collision());
        bp_table.lemma_addrs_inv();
        assert(set.size_in(db1) == 0);
        assert forall|a: Seq<u8>| a.len() == 20 implies #[trigger] set.index_in(db1, a) == 0 by {
            assert(slot_of(set.index_key(), address_word(a)) != poster_total_slot(sk));
            assert(slot_of(set.index_key(), address_word(a)) != slot_of(set.backing_key(), 0));
            assert(slot_value(db0, acct, slot_of(poster_index_key(sk), address_word(a))) == 0);
        }
        assert(bp_table.valid(db1));
    }
    match bp_table.add_poster(db, bp, bp) {
        Ok(_) => {},
        Err(_) => {
            proof {
                assert(bp_table.addrs().index_in(db1, bp.bytes@) == 0);
                assert(false);
            }
        },
    }
    let ghost db2 = *db;
    let mut pay_rewards_to = sto.open_storage_backed_address(PAY_REWARDS_TO_OFFSET);
    pay_rewards_to.set(db, initial_rewards_recipient);
    let mut equilibration_units = sto.open_storage_backed_big_uint(EQUILIBRATION_UNITS_OFFSET);
    equilibration_units.set_checked(db, U256::from_u64(INITIAL_EQUILIBRATION_UNITS_V0));
    sto.set_uint64_by_uint64(db, INERTIA_OFFSET, INITIAL_INERTIA);
    let mut funds_due_for_rewards = sto.open_storage_backed_big_int(FUNDS_DUE_FOR_REWARDS_OFFSET);
    funds_due_for_rewards.set_checked(db, I256::zero());
    sto.set_uint64_by_uint64(db, PER_UNIT_REWARD_OFFSET, INITIAL_PER_UNIT_REWARD);
    let mut price_per_unit = sto.open_storage_backed_big_uint(PRICE_PER_UNIT_OFFSET);
    price_per_unit.set_saturating_with_warning(db, initial_l1_base_fee, "initial L1 base fee (storing in price per unit)");
    proof {
        lemma_initialized(bp_table, sk, acct, db0, db1, db2, *db, initial_rewards_recipient.bytes@, initial_l1_base_fee.value());
    }
}

/// What initializing leaves: the table holds only the batch poster and six
/// fields are set; everything else is as it was.
#[verifier::rlimit(60)]
proof fn lemma_initialized<B: Burner>(
    bp_table: BatchPostersTable<B>,
    sk: Seq<u8>,
    acct: Seq<u8>,
    db0: InMemoryDB,
    db1: InMemoryDB,
    db2: InMemoryDB,
    dbf: InMemoryDB,
    rw: Seq<u8>,
    base_fee: int,
)
    requires
        l1_keys_no_collision(sk),
        bp_table.inv(),
        bp_table.account() == acct,
        bp_table.total_slot() == poster_total_slot(sk),
        bp_table.info_key() == poster_info_key(sk),
        bp_table.addrs().backing_key() == poster_set_key(sk),
        bp_table.addrs().index_key() == poster_index_key(sk),
        bp_table.addrs().account() == acct,
        crate::batch_poster::db_two_written(db0, db1, acct, poster_total_slot(sk), 0, slot_of(poster_set_key(sk), 0), 0),
        bp_table.addrs().size_in(db1) == 0,
        bp_table.added_poster(db1, db2, batch_poster_bytes(), batch_poster_bytes()),
        db_slots(dbf) == db_slots(db2).insert((acct, slot_of(sk, 0)), address_word(rw)).insert(
            (acct, slot_of(sk, 1)),
            INITIAL_EQUILIBRATION_UNITS_V0 as int,
        ).insert((acct, slot_of(sk, 2)), INITIAL_INERTIA as int).insert((acct, slot_of(sk, 5)), 0).insert(
            (acct, slot_of(sk, 3)),
            INITIAL_PER_UNIT_REWARD as int,
        ).insert((acct, slot_of(sk, 7)), base_fee),
        db_balances(dbf) == db_balances(db2),
    ensures
        forall|st: L1PricingState<B>|
            st.inv() && st.key() == sk && st.account() == acct ==> #[trigger] st.initialized_in(db0, dbf, rw, base_fee),
{
        let bpb = batch_poster_bytes();
        let bk = poster_set_key(sk);
        let set = bp_table.addrs();
        assert(bp_table.posters(db1) =~= Seq::<Seq<u8>>::empty());
        assert(bp_table.posters(db2) =~= seq![bpb]);
        // The six field writes touch no slot of the table.
        assert forall|s: int| in_table_of(sk, s) implies slot_value(dbf, acct, s) == slot_value(db2, acct, s) by {
            assert(!in_table_of(sk, slot_of(sk, 0)));
            assert(!in_table_of(sk, slot_of(sk, 1)));
            assert(!in_table_of(sk, slot_of(sk, 2)));
            assert(!in_table_of(sk, slot_of(sk, 3)));
            assert(!in_table_of(sk, slot_of(sk, 5)));
            assert(!in_table_of(sk, slot_of(sk, 7)));
        }
        // The table's work touches no field.
        assert forall|i: int| 0 <= i <= 12 implies slot_value(db2, acct, #[trigger] slot_of(sk, i)) == slot_value(
            db0,
            acct,
            slot_of(sk, i),
        ) by {
            assert(!in_table_of(sk, slot_of(sk, i)));
            assert(!bp_table.in_footprint(slot_of(sk, i)));
            assert(slot_of(sk, i) != poster_total_slot(sk));
            assert(slot_of(sk, i) != slot_of(bk, 0));
        }
        assert(set.size_in(db2) == 1) by {
            assert(bp_table.posters(db2).len() == 1);
        }
        assert(set.size_in(dbf) == 1) by {
            assert(in_table_of(sk, slot_of(bk, 0)));
        }
        assert(set.member_word(dbf, 1) == set.member_word(db2, 1)) by {
            assert(in_table_of(sk, slot_of(bk, 1)));
        }
        assert(bp_table.posters(dbf) =~= seq![bpb]);
        assert(bp_table.total_in(dbf) == 0) by {
            assert(in_table_of(sk, poster_total_slot(sk)));
        }
        assert(bp_table.due_in(dbf, bpb) == 0 && bp_table.pay_to_in(dbf, bpb) == bpb) by {
            assert(in_table_of(sk, bp_table.due_slot(bpb)));
            assert(in_table_of(sk, bp_table.pay_to_slot(bpb)));
        }
        assert forall|q: Seq<u8>| q.len() == 20 && q != bpb implies #[trigger] bp_table.due_in(dbf, q)
            == bp_table.due_in(db0, q) && bp_table.pay_to_in(dbf, q) == bp_table.pay_to_in(db0, q) by {
            assert(in_table_of(sk, bp_table.due_slot(q)));
            assert(in_table_of(sk, bp_table.pay_to_slot(q)));
            assert(bp_table.due_in(db2, q) == bp_table.due_in(db1, q));
            assert(bp_table.due_slot(q) != poster_total_slot(sk));
            assert(bp_table.pay_to_slot(q) != poster_total_slot(sk));
            assert(bp_table.due_slot(q) != slot_of(bk, 0));
            assert(bp_table.pay_to_slot(q) != slot_of(bk, 0));
        }
        assert(bp_table.valid(dbf)) by {
            bp_table.lemma_addrs_inv();
            assert forall|i: int| 0 <= i <= u64_max() implies #[trigger] set.member_word(dbf, i) == set.member_word(db2, i) by {
                assert(in_table_of(sk, slot_of(bk, i)));
            }
            assert forall|a: Seq<u8>| a.len() == 20 implies #[trigger] set.index_in(dbf, a) == set.index_in(db2, a) by {
                assert(in_table_of(sk, slot_of(poster_index_key(sk), address_word(a))));
            }
        }
        assert forall|acc: Seq<u8>, s: int| !(acc == acct && (is_field_slot(sk, s) || in_table_of(sk, s)))
            implies #[trigger] slot_value(dbf, acc, s) == slot_value(db0, acc, s) by {
            if acc == acct {
                assert(s != slot_of(sk, 0));
                assert(s != slot_of(sk, 1));
                assert(s != slot_of(sk, 2));
                assert(s != slot_of(sk, 3));
                assert(s != slot_of(sk, 5));
                assert(s != slot_of(sk, 7));
                assert(s != poster_total_slot(sk));
                assert(s != slot_of(bk, 0));
                assert(!bp_table.in_footprint(s));
            }
            assert(slot_value(db1, acc, s) == slot_value(db0, acc, s));
            assert(slot_value(db2, acc, s) == slot_value(db1, acc, s));
        }
        let expected = Seq::new(13, |i: int| slot_value(db0, acct, slot_of(sk, i))).update(
            0,
            address_word(rw),
        ).update(1, INITIAL_EQUILIBRATION_UNITS_V0 as int).update(2, INITIAL_INERTIA as int).update(
            3,
            INITIAL_PER_UNIT_REWARD as int,
        ).update(5, 0).update(7, base_fee);
        assert forall|i: int| 0 <= i < 13 implies #[trigger] slot_value(dbf, acct, slot_of(sk, i)) == expected[i] by {
            assert(offsets_distinct(sk, 12));
        }
        assert forall|st: L1PricingState<B>|
            st.inv() && st.key() == sk && st.account() == acct implies #[trigger] st.initialized_in(
            db0,
            dbf,
            rw,
            base_fee,
        ) by {
            st.lemma_table();
            let t = st.table();
            t.lemma_same_place(&bp_table, dbf);
            t.lemma_same_place(&bp_table, db0);
            assert(st.fields(dbf) =~= expected);
            assert(st.fields(db0) =~= Seq::new(13, |i: int| slot_value(db0, acct, slot_of(sk, i))));
            assert(t.valid(dbf));
            assert(t.posters(dbf) == seq![batch_poster_bytes()]);
            assert(t.due_in(dbf, batch_poster_bytes()) == 0);
            assert(t.pay_to_in(dbf, batch_poster_bytes()) == batch_poster_bytes());
            assert(t.total_in(dbf) == 0);
            assert(st.slots_outside_kept(db0, dbf));
        }
}

/// The state of a spending update at ArbOS version 10 or later, before and
/// after: the figures that the update computes from what was stored.
pub struct SpendingFigures {
    pub units_allocated: int,
    pub credited: int,
    pub due_before: int,
    pub due_credited: int,
    pub rewards_paid: int,
    pub rewards_due: int,
    pub settled: int,
    pub due_after: int,
    pub fees_after: int,
    pub total_after: int,
    pub surplus: int,
}

/// The rewards for `units` units at `per_unit` each.
#[verifier::opaque]
pub open spec fn rewards_for(units: int, per_unit: int) -> int {
    units * per_unit
}

/// Whether a pool holding `pool_balance` covers the payments of `f`: the
/// rewards, then the poster from what the rewards left (all of it where
/// the rewards are paid to the pool itself).
pub open spec fn payments_fit(f: SpendingFigures, pool_balance: int, rewards_at_pool: bool) -> bool {
    &&& f.rewards_paid <= pool_balance
    &&& f.settled + (if rewards_at_pool {
        0
    } else {
        f.rewards_paid
    }) <= pool_balance
}

/// The figures of settling an update that took `units` units and credits
/// the poster `wei`: the poster owed `due0`, the table `total0` in all, the
/// rewards `rewards0` at `per_unit` a unit, and `fees0` available. Rewards
/// are paid as far as the fees go, then the poster from what is left.
pub open spec fn settlement(
    units: int,
    wei: int,
    due0: int,
    total0: int,
    per_unit: int,
    rewards0: int,
    fees0: int,
) -> SpendingFigures {
    let due1 = clamp_i256(due0 + signed_of_word(wei));
    let owed = rewards_for(units, per_unit);
    let paid = min_of(owed, fees0);
    let rewards_due = clamp_i256(clamp_i256(rewards0 + owed) - paid);
    let fees1 = fees0 - paid;
    let settled = if due1 > 0 {
        min_of(fees1, due1)
    } else {
        0
    };
    let due2 = due1 - settled;
    let total1 = adjusted_total(total0, due1, due0);
    let total2 = if settled != 0 {
        adjusted_total(total1, due2, due1)
    } else {
        total1
    };
    SpendingFigures {
        units_allocated: units,
        credited: wei,
        due_before: due0,
        due_credited: due1,
        rewards_paid: paid,
        rewards_due,
        settled,
        due_after: due2,
        fees_after: fees1 - settled,
        total_after: total2,
        surplus: surplus_of(fees1 - settled, total2, rewards_due),
    }
}

/// The figures of settling an update before version 10, which pays from
/// the L1 fees pool's balance `pool0` itself: as `settlement`, but what is
/// left for the poster is what the pool holds after the rewards (which stay
/// there where the rewards go to the pool), and the pool keeps what goes to
/// a poster paid at the pool.
pub open spec fn settlement_from_pool(
    units: int,
    wei: int,
    due0: int,
    total0: int,
    per_unit: int,
    rewards0: int,
    pool0: int,
    rewards_to_pool: bool,
    poster_paid_at_pool: bool,
) -> SpendingFigures {
    let due1 = clamp_i256(due0 + signed_of_word(wei));
    let owed = rewards_for(units, per_unit);
    let paid = min_of(owed, pool0);
    let rewards_due = clamp_i256(clamp_i256(rewards0 + owed) - paid);
    let avail = if rewards_to_pool {
        pool0
    } else {
        pool0 - paid
    };
    let settled = if due1 > 0 {
        min_of(avail, due1)
    } else {
        0
    };
    let due2 = due1 - settled;
    let total1 = adjusted_total(total0, due1, due0);
    let total2 = if settled != 0 {
        adjusted_total(total1, due2, due1)
    } else {
        total1
    };
    let pool_after = if poster_paid_at_pool {
        avail
    } else {
        avail - settled
    };
    SpendingFigures {
        units_allocated: units,
        credited: wei,
        due_before: due0,
        due_credited: due1,
        rewards_paid: paid,
        rewards_due,
        settled,
        due_after: due2,
        fees_after: pool_after,
        total_after: total2,
        surplus: surplus_of(pool_after, total2, rewards_due),
    }
}

/// Settles posters `ps` in order, each owed `dues(q)` and paid at
/// `payto(q)`, from `avail` funds in the L1 fees pool: each poster owed a
/// positive amount gets as much of it as the funds left cover. Gives the
/// funds left, the balances (from `bal`) and the table's total (from `total`).
pub open spec fn settle_posters(
    ps: Seq<Seq<u8>>,
    dues: spec_fn(Seq<u8>) -> int,
    payto: spec_fn(Seq<u8>) -> Seq<u8>,
    avail: int,
    bal: Map<Seq<u8>, int>,
    total: int,
) -> (int, Map<Seq<u8>, int>, int)
    decreases ps.len(),
{
    if ps.len() == 0 {
        (avail, bal, total)
    } else {
        let prev = settle_posters(ps.drop_last(), dues, payto, avail, bal, total);
        let d = dues(ps.last());
        let bt = if d > 0 {
            min_of(d, prev.0)
        } else {
            0
        };
        if bt > 0 {
            (prev.0 - bt, moved(prev.1, funds_pool_bytes(), payto(ps.last()), bt), adjusted_total(prev.2, d - bt, d))
        } else {
            prev
        }
    }
}

/// What poster `ps[k]` gets when posters `ps` are settled so.
pub open spec fn settled_at(
    ps: Seq<Seq<u8>>,
    dues: spec_fn(Seq<u8>) -> int,
    payto: spec_fn(Seq<u8>) -> Seq<u8>,
    avail: int,
    bal: Map<Seq<u8>, int>,
    total: int,
    k: int,
) -> int {
    let a = settle_posters(ps.take(k), dues, payto, avail, bal, total).0;
    let d = dues(ps[k]);
    if d > 0 {
        min_of(d, a)
    } else {
        0
    }
}

/// Settling gives the same where the posters are owed the same and paid at
/// the same addresses.
pub proof fn lemma_settle_congruent(
    ps: Seq<Seq<u8>>,
    d1: spec_fn(Seq<u8>) -> int,
    d2: spec_fn(Seq<u8>) -> int,
    p1: spec_fn(Seq<u8>) -> Seq<u8>,
    p2: spec_fn(Seq<u8>) -> Seq<u8>,
    avail: int,
    bal: Map<Seq<u8>, int>,
    total: int,
)
    requires
        forall|k: int| 0 <= k < ps.len() ==> d1(#[trigger] ps[k]) == d2(ps[k]) && p1(ps[k]) == p2(ps[k]),
    ensures
        settle_posters(ps, d1, p1, avail, bal, total) == settle_posters(ps, d2, p2, avail, bal, total),
        forall|k: int|
            0 <= k < ps.len() ==> #[trigger] settled_at(ps, d1, p1, avail, bal, total, k) == settled_at(
                ps,
                d2,
                p2,
                avail,
                bal,
                total,
                k,
            ),
    decreases ps.len(),
{
    if ps.len() > 0 {
        let init = ps.drop_last();
        assert forall|k: int| 0 <= k < init.len() implies d1(#[trigger] init[k]) == d2(init[k]) && p1(init[k]) == p2(
            init[k],
        ) by {
            assert(init[k] == ps[k]);
        }
        lemma_settle_congruent(init, d1, d2, p1, p2, avail, bal, total);
        assert(ps.last() == ps[ps.len() - 1]);
        assert forall|k: int| 0 <= k < ps.len() implies #[trigger] settled_at(ps, d1, p1, avail, bal, total, k)
            == settled_at(ps, d2, p2, avail, bal, total, k) by {
            let pre = ps.take(k);
            assert forall|j: int| 0 <= j < pre.len() implies d1(#[trigger] pre[j]) == d2(pre[j]) && p1(pre[j]) == p2(
                pre[j],
            ) by {
                assert(pre[j] == ps[j]);
            }
            lemma_settle_congruent(pre, d1, d2, p1, p2, avail, bal, total);
        }
    }
}

/// The last update time that the first version's update measures from: one
/// before the update time (wrapping below zero) where none is stored and the
/// current time is positive.
pub open spec fn effective_last_update_v1(stored: int, update_time: int, current_time: int) -> int {
    if stored == 0 && current_time > 0 {
        if update_time > 0 {
            update_time - 1
        } else {
            u64_max()
        }
    } else {
        stored
    }
}

impl<B: Burner> L1PricingState<B> {
    /// What poster `p` is owed before an update: nothing where it is no poster yet.
    pub open spec fn due_before(&self, db: InMemoryDB, p: Seq<u8>) -> int {
        if self.table().is_poster(db, p) {
            self.table().due_in(db, p)
        } else {
            0
        }
    }

    /// Where poster `p` is paid: at its own address where it is no poster yet.
    pub open spec fn pay_to_before(&self, db: InMemoryDB, p: Seq<u8>) -> Seq<u8> {
        if self.table().is_poster(db, p) {
            self.table().pay_to_in(db, p)
        } else {
            p
        }
    }

    /// Where the posters of `db` are paid.
    #[verifier::opaque]
    pub open spec fn payees(&self, db: InMemoryDB) -> Set<Seq<u8>> {
        Set::new(
            |a: Seq<u8>|
                exists|k: int|
                    0 <= k < self.table().posters(db).len() && a == self.table().pay_to_in(
                        db,
                        #[trigger] self.table().posters(db)[k],
                    ),
        )
    }

    /// Whether every account that a spending update by `p` under
    /// `arbos_version` may pay from the L1 fees pool can receive all that the
    /// pool holds: the rewards recipient, where `p` is paid, and, below
    /// version 2 (where every poster is paid), where each poster is paid.
    #[verifier::opaque]
    pub open spec fn update_payable(&self, db: InMemoryDB, arbos_version: int, p: Seq<u8>) -> bool {
        &&& pool_payable_to(db, self.pay_rewards_to_in(db))
        &&& pool_payable_to(db, self.pay_to_before(db, p))
        &&& arbos_version < ARBOS_VERSION_2 ==> all_pool_payable(db, self.payees(db))
    }

    /// Whether `db` is `db0` with poster `p` opened: as it was where `p` is a
    /// poster, with `p` added (paid at its own address) otherwise.
    pub open spec fn poster_opened(&self, db0: InMemoryDB, db: InMemoryDB, p: Seq<u8>) -> bool {
        if self.table().is_poster(db0, p) {
            db == db0
        } else {
            self.table().added_poster(db0, db, p, p)
        }
    }

    /// The last update time that an update at `update_time` measures from.
    pub open spec fn last_update_for(&self, db0: InMemoryDB, update_time: int) -> int {
        effective_last_update(self.field(db0, 4), update_time)
    }

    /// Whether an update at `update_time`, at `current_time`, has its times
    /// out of order (from version 2 on).
    pub open spec fn times_invalid(&self, db0: InMemoryDB, update_time: int, current_time: int) -> bool {
        update_time > current_time || update_time < self.last_update_for(db0, update_time)
    }

    /// The figures of a spending update from version 10 on.
    pub open spec fn figures_v10(
        &self,
        db0: InMemoryDB,
        arbos_version: int,
        update_time: int,
        current_time: int,
        p: Seq<u8>,
        wei_spent: int,
        l1_basefee: int,
    ) -> SpendingFigures {
        let lut = self.last_update_for(db0, update_time);
        let ua = units_allocated(
            self.field(db0, 6),
            alloc_numerator(lut, update_time, current_time),
            alloc_denominator(lut, update_time, current_time),
        );
        let wei = if arbos_version >= ARBOS_VERSION_3 {
            capped_spending(wei_spent, l1_basefee, ua, self.field(db0, 10))
        } else {
            wei_spent
        };
        settlement(
            ua,
            wei,
            self.due_before(db0, p),
            self.table().total_in(db0),
            self.field(db0, 3),
            self.funds_due_for_rewards_in(db0),
            self.field(db0, 11),
        )
    }

    /// Whether the L1 fees pool covers what a spending update from version
    /// 10 on pays out of it, where its times are in order.
    pub open spec fn v10_payments_fit(
        &self,
        db0: InMemoryDB,
        arbos_version: int,
        update_time: int,
        current_time: int,
        p: Seq<u8>,
        wei_spent: int,
        l1_basefee: int,
    ) -> bool {
        !self.times_invalid(db0, update_time, current_time) ==> payments_fit(
            self.figures_v10(db0, arbos_version, update_time, current_time, p, wei_spent, l1_basefee),
            balance_value(db0, funds_pool_bytes()),
            self.pay_rewards_to_in(db0) == funds_pool_bytes(),
        )
    }

    /// The fields after a spending update from version 10 on.
    pub open spec fn fields_after_v10(&self, db0: InMemoryDB, arbos_version: int, update_time: int, f: SpendingFigures) -> Seq<int> {
        let fields1 = self.fields(db0).update(6, self.field(db0, 6) - f.units_allocated).update(
            5,
            i256_raw(f.rewards_due),
        ).update(11, f.fees_after).update(4, update_time);
        if f.units_allocated > 0 {
            fields1.update(
                8,
                if arbos_version < ARBOS_VERSION_7 {
                    abs(f.surplus)
                } else {
                    i256_raw(f.surplus)
                },
            ).update(
                7,
                price_after_change(
                    self.field(db0, 7),
                    price_change(f.surplus, self.last_surplus_in(db0), self.field(db0, 2), self.field(db0, 1), f.units_allocated),
                ),
            )
        } else {
            fields1
        }
    }

    /// The figures of a spending update from version 2 up to version 10.
    pub open spec fn figures_pre10(
        &self,
        db0: InMemoryDB,
        arbos_version: int,
        update_time: int,
        current_time: int,
        p: Seq<u8>,
        wei_spent: int,
        l1_basefee: int,
    ) -> SpendingFigures {
        let lut = self.last_update_for(db0, update_time);
        let ua = units_allocated(
            self.field(db0, 6),
            alloc_numerator(lut, update_time, current_time),
            alloc_denominator(lut, update_time, current_time),
        );
        let wei = if arbos_version >= ARBOS_VERSION_3 {
            capped_spending(wei_spent, l1_basefee, ua, self.field(db0, 10))
        } else {
            wei_spent
        };
        settlement_from_pool(
            ua,
            wei,
            self.due_before(db0, p),
            self.table().total_in(db0),
            self.field(db0, 3),
            self.funds_due_for_rewards_in(db0),
            balance_value(db0, funds_pool_bytes()),
            self.pay_rewards_to_in(db0) == funds_pool_bytes(),
            self.pay_to_before(db0, p) == funds_pool_bytes(),
        )
    }

    /// The fields after a spending update from version 2 up to version 10:
    /// as from version 10 on, except that the fees available stay as they were.
    pub open spec fn fields_after_pre10(&self, db0: InMemoryDB, arbos_version: int, update_time: int, f: SpendingFigures) -> Seq<int> {
        self.fields_after_v10(db0, arbos_version, update_time, f).update(11, self.field(db0, 11))
    }

    /// Whether `db` is `db0` after a spending update from version 2 up to
    /// version 10: as from version 10 on, but with rewards and the poster
    /// paid from the L1 fees pool's balance and the fees available untouched.
    pub open spec fn spending_applied_pre10(
        &self,
        db0: InMemoryDB,
        db: InMemoryDB,
        arbos_version: int,
        update_time: int,
        current_time: int,
        p: Seq<u8>,
        wei_spent: int,
        l1_basefee: int,
    ) -> bool {
        let f = self.figures_pre10(db0, arbos_version, update_time, current_time, p, wei_spent, l1_basefee);
        &&& self.table_after_update(db0, db, p, f.due_after, f.total_after)
        &&& self.fields(db) == self.fields_after_pre10(db0, arbos_version, update_time, f)
        &&& db_balances(db) == moved(
            moved(db_balances(db0), funds_pool_bytes(), self.pay_rewards_to_in(db0), f.rewards_paid),
            funds_pool_bytes(),
            self.pay_to_before(db0, p),
            f.settled,
        )
    }

    /// The last update time that the first version's update measures from.
    pub open spec fn last_update_v1(&self, db0: InMemoryDB, update_time: int, current_time: int) -> int {
        effective_last_update_v1(self.field(db0, 4), update_time, current_time)
    }

    /// Whether the first version's update does nothing (beyond opening the
    /// poster): the update is not before now, or before the last update.
    pub open spec fn times_invalid_v1(&self, db0: InMemoryDB, update_time: int, current_time: int) -> bool {
        update_time >= current_time || update_time < self.last_update_v1(db0, update_time, current_time)
    }

    /// The units that the first version's update takes: the units since
    /// the last update times the time covered, modulo 2^64, over the time
    /// since the last update.
    pub open spec fn units_v1(&self, db0: InMemoryDB, update_time: int, current_time: int) -> int {
        let lut = self.last_update_v1(db0, update_time, current_time);
        ((self.field(db0, 6) * (update_time - lut)) % 0x1_0000_0000_0000_0000) / (current_time - lut)
    }

    /// The funds that the first version's update may pay out: the pool's
    /// balance times the share of time that the update covers.
    pub open spec fn funds_v1(&self, db0: InMemoryDB, update_time: int, current_time: int) -> int {
        let lut = self.last_update_v1(db0, update_time, current_time);
        clamp_u256(balance_value(db0, funds_pool_bytes()) * (update_time - lut)) / (current_time - lut)
    }

    /// What the first version's update credits poster `p`.
    pub open spec fn due_credited_v1(&self, db0: InMemoryDB, p: Seq<u8>, wei_spent: int) -> int {
        clamp_i256(self.due_before(db0, p) + signed_of_word(wei_spent))
    }

    /// The rewards that the first version's update pays.
    pub open spec fn rewards_paid_v1(&self, db0: InMemoryDB, update_time: int, current_time: int) -> int {
        min_of(
            rewards_for(self.units_v1(db0, update_time, current_time), self.field(db0, 3)),
            self.funds_v1(db0, update_time, current_time),
        )
    }

    /// The posters after the first version's update opened poster `p`.
    pub open spec fn posters_with(&self, db0: InMemoryDB, p: Seq<u8>) -> Seq<Seq<u8>> {
        if self.table().is_poster(db0, p) {
            self.table().posters(db0)
        } else {
            self.table().posters(db0).push(p)
        }
    }

    /// What each poster is owed when the first version's update settles them.
    pub open spec fn dues_v1(&self, db0: InMemoryDB, p: Seq<u8>, wei_spent: int) -> spec_fn(Seq<u8>) -> int {
        |q: Seq<u8>|
            if q == p {
                self.due_credited_v1(db0, p, wei_spent)
            } else {
                self.table().due_in(db0, q)
            }
    }

    /// Where each poster is paid when the first version's update settles them.
    pub open spec fn pay_tos_v1(&self, db0: InMemoryDB, p: Seq<u8>) -> spec_fn(Seq<u8>) -> Seq<u8> {
        |q: Seq<u8>|
            if q == p {
                self.pay_to_before(db0, p)
            } else {
                self.table().pay_to_in(db0, q)
            }
    }

    /// The balances before the first version's update settles the posters.
    pub open spec fn balances_rewarded_v1(&self, db0: InMemoryDB, update_time: int, current_time: int) -> Map<Seq<u8>, int> {
        moved(
            db_balances(db0),
            funds_pool_bytes(),
            self.pay_rewards_to_in(db0),
            self.rewards_paid_v1(db0, update_time, current_time),
        )
    }

    /// The table's total before the first version's update settles the posters.
    pub open spec fn total_credited_v1(&self, db0: InMemoryDB, p: Seq<u8>, wei_spent: int) -> int {
        adjusted_total(self.table().total_in(db0), self.due_credited_v1(db0, p, wei_spent), self.due_before(db0, p))
    }

    /// The settling of all posters by the first version's update.
    pub open spec fn settled_v1(&self, db0: InMemoryDB, update_time: int, current_time: int, p: Seq<u8>, wei_spent: int) -> (
        int,
        Map<Seq<u8>, int>,
        int,
    ) {
        settle_posters(
            self.posters_with(db0, p),
            self.dues_v1(db0, p, wei_spent),
            self.pay_tos_v1(db0, p),
            self.funds_v1(db0, update_time, current_time) - self.rewards_paid_v1(db0, update_time, current_time),
            self.balances_rewarded_v1(db0, update_time, current_time),
            self.total_credited_v1(db0, p, wei_spent),
        )
    }

    /// What poster `k` gets when the first version's update settles the posters.
    pub open spec fn settled_poster_v1(&self, db0: InMemoryDB, update_time: int, current_time: int, p: Seq<u8>, wei_spent: int, k: int) -> int {
        settled_at(
            self.posters_with(db0, p),
            self.dues_v1(db0, p, wei_spent),
            self.pay_tos_v1(db0, p),
            self.funds_v1(db0, update_time, current_time) - self.rewards_paid_v1(db0, update_time, current_time),
            self.balances_rewarded_v1(db0, update_time, current_time),
            self.total_credited_v1(db0, p, wei_spent),
            k,
        )
    }

    /// The rewards owed after the first version's update.
    pub open spec fn rewards_due_v1(&self, db0: InMemoryDB, update_time: int, current_time: int) -> int {
        let owed = rewards_for(self.units_v1(db0, update_time, current_time), self.field(db0, 3));
        clamp_i256(clamp_i256(self.funds_due_for_rewards_in(db0) + owed) - self.rewards_paid_v1(db0, update_time, current_time))
    }

    /// The fields after the first version's update.
    pub open spec fn fields_after_v1(&self, db0: InMemoryDB, update_time: int, current_time: int, p: Seq<u8>, wei_spent: int) -> Seq<int> {
        let ua = self.units_v1(db0, update_time, current_time);
        let res = self.settled_v1(db0, update_time, current_time, p, wei_spent);
        let rewards_due = self.rewards_due_v1(db0, update_time, current_time);
        let surplus = surplus_of(balance_in(res.1, funds_pool_bytes()), res.2, rewards_due);
        let old_surplus = surplus_of(
            balance_value(db0, funds_pool_bytes()),
            self.table().total_in(db0),
            self.funds_due_for_rewards_in(db0),
        );
        let fields1 = self.fields(db0).update(6, self.field(db0, 6) - ua).update(5, i256_raw(rewards_due)).update(
            4,
            update_time,
        );
        if ua > 0 {
            fields1.update(
                7,
                price_after_change(
                    self.field(db0, 7),
                    price_change_v1(surplus, old_surplus, self.field(db0, 2), self.field(db0, 1), ua),
                ),
            )
        } else {
            fields1
        }
    }

    /// Whether `db` is `db0` after the first version's spending update:
    /// poster `p` opened and credited what it spent, rewards accrued and
    /// paid as far as the pool's share for the update goes, then every
    /// poster in stored order paid from what is left as far as it goes, the
    /// time recorded and, where units were taken, the price moved.
    pub open spec fn spending_applied_pre2(&self, db0: InMemoryDB, db: InMemoryDB, update_time: int, current_time: int, p: Seq<u8>, wei_spent: int) -> bool {
        let t = self.table();
        let ps = self.posters_with(db0, p);
        let dues = self.dues_v1(db0, p, wei_spent);
        let res = self.settled_v1(db0, update_time, current_time, p, wei_spent);
        &&& t.valid(db)
        &&& t.posters(db) == ps
        &&& forall|k: int|
            0 <= k < ps.len() ==> #[trigger] t.due_in(db, ps[k]) == dues(ps[k]) - self.settled_poster_v1(
                db0,
                update_time,
                current_time,
                p,
                wei_spent,
                k,
            )
        &&& forall|q: Seq<u8>| q.len() == 20 && !ps.contains(q) ==> #[trigger] t.due_in(db, q) == t.due_in(db0, q)
        &&& forall|q: Seq<u8>| q.len() == 20 ==> #[trigger] t.pay_to_in(db, q) == (self.pay_tos_v1(db0, p))(q)
        &&& t.total_in(db) == res.2
        &&& self.fields(db) == self.fields_after_v1(db0, update_time, current_time, p, wei_spent)
        &&& self.slots_outside_kept(db0, db)
        &&& db_balances(db) == res.1
    }

    /// What a spending update before version 10 (by `pre_version10_...`)
    /// gives and leaves: the first version's update before version 2.
    pub open spec fn pre10_outcome(
        &self,
        db0: InMemoryDB,
        db: InMemoryDB,
        r: Result<(), UpdateSpendingError<Infallible>>,
        arbos_version: int,
        update_time: int,
        current_time: int,
        p: Seq<u8>,
        wei_spent: int,
        l1_basefee: int,
    ) -> bool {
        if arbos_version < ARBOS_VERSION_2 {
            &&& r is Ok
            &&& self.times_invalid_v1(db0, update_time, current_time) ==> self.poster_opened(db0, db, p)
            &&& !self.times_invalid_v1(db0, update_time, current_time) ==> self.spending_applied_pre2(
                db0,
                db,
                update_time,
                current_time,
                p,
                wei_spent,
            )
        } else {
            match r {
                Ok(()) => !self.times_invalid(db0, update_time, current_time) && self.spending_applied_pre10(
                    db0,
                    db,
                    arbos_version,
                    update_time,
                    current_time,
                    p,
                    wei_spent,
                    l1_basefee,
                ),
                Err(UpdateSpendingError::InvalidTime) => self.times_invalid(db0, update_time, current_time)
                    && self.poster_opened(db0, db, p),
                Err(UpdateSpendingError::Db(_)) => false,
            }
        }
    }

    /// What the first version's spending update gives and leaves: it never
    /// fails; where its times are out of order it only opens the poster.
    pub open spec fn pre2_outcome(
        &self,
        db0: InMemoryDB,
        db: InMemoryDB,
        r: Result<(), Infallible>,
        update_time: int,
        current_time: int,
        p: Seq<u8>,
        wei_spent: int,
    ) -> bool {
        &&& r is Ok
        &&& self.times_invalid_v1(db0, update_time, current_time) ==> self.poster_opened(db0, db, p)
        &&& !self.times_invalid_v1(db0, update_time, current_time) ==> self.spending_applied_pre2(
            db0,
            db,
            update_time,
            current_time,
            p,
            wei_spent,
        )
    }

    /// Law: below version 2 the update before version 10 is the first
    /// version's update: it ends as that one does, whatever the L1 base fee,
    /// with that one's result passed on (an error as a storage error); it
    /// never fails, so never reports an invalid time.
    pub proof fn law_pre10_below_v2_is_pre2(
        &self,
        db0: InMemoryDB,
        db: InMemoryDB,
        r: Result<(), UpdateSpendingError<Infallible>>,
        r2: Result<(), Infallible>,
        arbos_version: int,
        update_time: int,
        current_time: int,
        p: Seq<u8>,
        wei_spent: int,
        l1_basefee: int,
        other_basefee: int,
    )
        requires
            arbos_version < ARBOS_VERSION_2,
        ensures
            self.pre10_outcome(db0, db, pre2_result_passed_on(r2), arbos_version, update_time, current_time, p, wei_spent, l1_basefee)
                <==> self.pre2_outcome(db0, db, r2, update_time, current_time, p, wei_spent),
            self.pre10_outcome(db0, db, r, arbos_version, update_time, current_time, p, wei_spent, l1_basefee) ==> r is Ok,
            self.pre10_outcome(db0, db, r, arbos_version, update_time, current_time, p, wei_spent, l1_basefee)
                == self.pre10_outcome(db0, db, r, arbos_version, update_time, current_time, p, wei_spent, other_basefee),
    {
    }

    /// Law: from version 3 on an update credits the poster what it spent,
    /// but, where a cap is set, at most the L1 base fee times the units that
    /// this very update takes times the cap's basis points over 10000; the
    /// units it takes (and takes off the units collected) are those
    /// collected times the time the update covers over the time since the
    /// last update. This where time passed since the last update and no
    /// product saturates.
    pub proof fn law_credit_capped_by_units_taken(
        &self,
        db0: InMemoryDB,
        db: InMemoryDB,
        arbos_version: int,
        update_time: int,
        current_time: int,
        p: Seq<u8>,
        wei_spent: int,
        l1_basefee: int,
    )
        requires
            ARBOS_VERSION_3 <= arbos_version,
            arbos_version < ARBOS_VERSION_10 ==> self.spending_applied_pre10(
                db0,
                db,
                arbos_version,
                update_time,
                current_time,
                p,
                wei_spent,
                l1_basefee,
            ),
            arbos_version >= ARBOS_VERSION_10 ==> self.spending_applied_v10(
                db0,
                db,
                arbos_version,
                update_time,
                current_time,
                p,
                wei_spent,
                l1_basefee,
            ),
            self.last_update_for(db0, update_time) <= update_time < current_time,
            0 <= self.field(db0, 6),
            self.field(db0, 6) * (update_time - self.last_update_for(db0, update_time)) <= u64_max(),
            0 <= wei_spent,
            0 <= l1_basefee,
            0 <= self.field(db0, 10),
            l1_basefee * self.field(db0, 6) * self.field(db0, 10) <= u256_max(),
        ensures
            ({
                let lut = self.last_update_for(db0, update_time);
                let f = if arbos_version < ARBOS_VERSION_10 {
                    self.figures_pre10(db0, arbos_version, update_time, current_time, p, wei_spent, l1_basefee)
                } else {
                    self.figures_v10(db0, arbos_version, update_time, current_time, p, wei_spent, l1_basefee)
                };
                let taken = self.field(db0, 6) - self.field(db, 6);
                let bips = self.field(db0, 10);
                &&& taken == self.field(db0, 6) * (update_time - lut) / (current_time - lut)
                &&& f.units_allocated == taken
                &&& bips != 0 ==> f.credited == min_of(wei_spent, l1_basefee * taken * bips / 10000)
                &&& bips == 0 ==> f.credited == wei_spent
            }),
    {
        let lut = self.last_update_for(db0, update_time);
        let u = self.field(db0, 6);
        let n = update_time - lut;
        let d = current_time - lut;
        assert(alloc_numerator(lut, update_time, current_time) == n);
        assert(alloc_denominator(lut, update_time, current_time) == d);
        let ua = u * n / d;
        assert(units_allocated(u, n, d) == ua);
        assert(0 <= ua <= u) by (nonlinear_arith)
            requires
                0 <= u,
                0 <= n < d,
                ua == u * n / d,
        ;
        assert(self.field(db, 6) == self.fields(db)[6]);
        let bips = self.field(db0, 10);
        let bf = l1_basefee;
        if bips != 0 {
            assert(0 <= bf * ua * bips <= bf * u * bips) by (nonlinear_arith)
                requires
                    0 <= ua <= u,
                    0 <= bf,
                    0 < bips,
            ;
            assert(0 <= bf * ua <= bf * ua * bips) by (nonlinear_arith)
                requires
                    0 <= ua,
                    0 <= bf,
                    1 <= bips,
            ;
            assert(crate::pricing_formulas::spending_cap(bf, ua, bips) == bf * ua * bips / 10000);
        }
    }

    /// Law: below version 10 the spending update is the update before
    /// version 10: it ends as that one does, with the same result.
    pub proof fn law_update_below_v10_is_pre10(
        &self,
        db0: InMemoryDB,
        db: InMemoryDB,
        r: Result<(), UpdateSpendingError<Infallible>>,
        arbos_version: int,
        update_time: int,
        current_time: int,
        p: Seq<u8>,
        wei_spent: int,
        l1_basefee: int,
    )
        requires
            arbos_version < ARBOS_VERSION_10,
        ensures
            self.update_outcome(db0, db, r, arbos_version, update_time, current_time, p, wei_spent, l1_basefee)
                <==> self.pre10_outcome(db0, db, r, arbos_version, update_time, current_time, p, wei_spent, l1_basefee),
    {
    }

    /// What a spending update gives and leaves, by ArbOS version.
    pub open spec fn update_outcome(
        &self,
        db0: InMemoryDB,
        db: InMemoryDB,
        r: Result<(), UpdateSpendingError<Infallible>>,
        arbos_version: int,
        update_time: int,
        current_time: int,
        p: Seq<u8>,
        wei_spent: int,
        l1_basefee: int,
    ) -> bool {
        if arbos_version >= ARBOS_VERSION_10 {
            match r {
                Ok(()) => !self.times_invalid(db0, update_time, current_time) && self.spending_applied_v10(
                    db0,
                    db,
                    arbos_version,
                    update_time,
                    current_time,
                    p,
                    wei_spent,
                    l1_basefee,
                ),
                Err(UpdateSpendingError::InvalidTime) => self.times_invalid(db0, update_time, current_time)
                    && self.poster_opened(db0, db, p),
                Err(UpdateSpendingError::Db(_)) => false,
            }
        } else {
            self.pre10_outcome(db0, db, r, arbos_version, update_time, current_time, p, wei_spent, l1_basefee)
        }
    }

    /// Whether the table in `db` is that of `db0` with poster `p` opened and
    /// owed `due_after`, the total `total_after`, and no slot outside the
    /// state changed.
    pub open spec fn table_after_update(&self, db0: InMemoryDB, db: InMemoryDB, p: Seq<u8>, due_after: int, total_after: int) -> bool {
        let t = self.table();
        &&& t.valid(db)
        &&& t.posters(db) == if t.is_poster(db0, p) {
            t.posters(db0)
        } else {
            t.posters(db0).push(p)
        }
        &&& t.is_poster(db, p)
        &&& t.due_in(db, p) == due_after
        &&& t.pay_to_in(db, p) == self.pay_to_before(db0, p)
        &&& t.total_in(db) == total_after
        &&& forall|q: Seq<u8>| q.len() == 20 && q != p ==> #[trigger] t.due_in(db, q) == t.due_in(db0, q)
            && t.pay_to_in(db, q) == t.pay_to_in(db0, q)
        &&& self.slots_outside_kept(db0, db)
    }

    /// Whether `db` is `db0` after a spending update from version 10 on:
    /// poster `p` opened and credited the (capped) spending, rewards accrued
    /// and paid from the fees available as far as they go, the poster paid
    /// from what is left as far as it goes, the time recorded and, where the
    /// update took units, the surplus recorded and the price moved.
    pub open spec fn spending_applied_v10(
        &self,
        db0: InMemoryDB,
        db: InMemoryDB,
        arbos_version: int,
        update_time: int,
        current_time: int,
        p: Seq<u8>,
        wei_spent: int,
        l1_basefee: int,
    ) -> bool {
        let f = self.figures_v10(db0, arbos_version, update_time, current_time, p, wei_spent, l1_basefee);
        &&& self.table_after_update(db0, db, p, f.due_after, f.total_after)
        &&& self.fields(db) == self.fields_after_v10(db0, arbos_version, update_time, f)
        &&& db_balances(db) == moved(
            moved(db_balances(db0), funds_pool_bytes(), self.pay_rewards_to_in(db0), f.rewards_paid),
            funds_pool_bytes(),
            self.pay_to_before(db0, p),
            f.settled,
        )
    }
}

impl<B: Burner> L1PricingState<B> {
    /// Law: where an update from version 10 on took units, the surplus it
    /// records is the surplus of the state it leaves, which
    /// `get_l1_pricing_surplus` then reports.
    pub proof fn law_v10_recorded_surplus_is_current(
        &self,
        db0: InMemoryDB,
        db: InMemoryDB,
        arbos_version: int,
        update_time: int,
        current_time: int,
        p: Seq<u8>,
        wei_spent: int,
        l1_basefee: int,
    )
        requires
            arbos_version >= ARBOS_VERSION_10,
            self.spending_applied_v10(db0, db, arbos_version, update_time, current_time, p, wei_spent, l1_basefee),
            self.figures_v10(db0, arbos_version, update_time, current_time, p, wei_spent, l1_basefee).units_allocated > 0,
        ensures
            self.last_surplus_in(db) == surplus_of(
                self.field(db, 11),
                self.table().total_in(db),
                self.funds_due_for_rewards_in(db),
            ),
    {
        let f = self.figures_v10(db0, arbos_version, update_time, current_time, p, wei_spent, l1_basefee);
        let fa = self.fields_after_v10(db0, arbos_version, update_time, f);
        assert(self.field(db, 8) == self.fields(db)[8]);
        assert(self.field(db, 11) == self.fields(db)[11]);
        assert(self.field(db, 5) == self.fields(db)[5]);
        assert(fa[8] == i256_raw(f.surplus));
        assert(fa[11] == f.fees_after);
        assert(fa[5] == i256_raw(f.rewards_due));
    }

    /// Law: an update from version 10 on pays out no more than the fees
    /// available, pays the rewards no more than they earned, and pays the
    /// poster no more than it is owed: what the poster is owed afterwards is
    /// never below zero where it was owed something, and the fees available
    /// stay at or above zero.
    pub proof fn law_v10_no_overpayment(
        &self,
        db0: InMemoryDB,
        db: InMemoryDB,
        arbos_version: int,
        update_time: int,
        current_time: int,
        p: Seq<u8>,
        wei_spent: int,
        l1_basefee: int,
    )
        requires
            arbos_version >= ARBOS_VERSION_10,
            self.spending_applied_v10(db0, db, arbos_version, update_time, current_time, p, wei_spent, l1_basefee),
            self.field(db0, 11) >= 0,
            self.field(db0, 3) >= 0,
            self.figures_v10(db0, arbos_version, update_time, current_time, p, wei_spent, l1_basefee).units_allocated
                >= 0,
        ensures
            ({
                let f = self.figures_v10(db0, arbos_version, update_time, current_time, p, wei_spent, l1_basefee);
                &&& 0 <= f.rewards_paid <= rewards_for(f.units_allocated, self.field(db0, 3))
                &&& 0 <= f.settled
                &&& f.due_credited > 0 ==> f.settled <= f.due_credited && self.table().due_in(db, p) >= 0
                &&& f.due_credited <= 0 ==> self.table().due_in(db, p) == f.due_credited
                &&& self.field(db, 11) == self.field(db0, 11) - f.rewards_paid - f.settled
                &&& self.field(db, 11) >= 0
            }),
    {
        let f = self.figures_v10(db0, arbos_version, update_time, current_time, p, wei_spent, l1_basefee);
        let fa = self.fields_after_v10(db0, arbos_version, update_time, f);
        assert(self.field(db, 11) == self.fields(db)[11]);
        assert(fa[11] == f.fees_after);
        reveal(rewards_for);
        assert(f.units_allocated * self.field(db0, 3) >= 0) by (nonlinear_arith)
            requires
                f.units_allocated >= 0,
                self.field(db0, 3) >= 0,
        ;
    }

    /// Law: an update from version 2 up to version 10 leaves the fees
    /// available as they were and pays the rewards and the poster out of the
    /// L1 fees pool's balance itself, where neither is paid at the pool.
    pub proof fn law_pre10_pays_from_pool(
        &self,
        db0: InMemoryDB,
        db: InMemoryDB,
        arbos_version: int,
        update_time: int,
        current_time: int,
        p: Seq<u8>,
        wei_spent: int,
        l1_basefee: int,
    )
        requires
            self.spending_applied_pre10(db0, db, arbos_version, update_time, current_time, p, wei_spent, l1_basefee),
            self.pay_rewards_to_in(db0) != funds_pool_bytes(),
            self.pay_to_before(db0, p) != funds_pool_bytes(),
        ensures
            self.field(db, 11) == self.field(db0, 11),
            ({
                let f = self.figures_pre10(db0, arbos_version, update_time, current_time, p, wei_spent, l1_basefee);
                balance_value(db0, funds_pool_bytes()) - balance_value(db, funds_pool_bytes()) == f.rewards_paid
                    + f.settled
            }),
    {
        let f = self.figures_pre10(db0, arbos_version, update_time, current_time, p, wei_spent, l1_basefee);
        assert(self.field(db, 11) == self.fields(db)[11]);
        assert(self.fields(db0)[11] == self.field(db0, 11));
        let m0 = db_balances(db0);
        let m1 = moved(m0, funds_pool_bytes(), self.pay_rewards_to_in(db0), f.rewards_paid);
        let m2 = moved(m1, funds_pool_bytes(), self.pay_to_before(db0, p), f.settled);
        assert(balance_in(m1, funds_pool_bytes()) == balance_in(m0, funds_pool_bytes()) - f.rewards_paid);
        assert(balance_in(m2, funds_pool_bytes()) == balance_in(m1, funds_pool_bytes()) - f.settled);
    }

    /// Law: an update from version 10 on takes off the fees available just
    /// what it pays out of the L1 fees pool, where neither the rewards nor
    /// the poster are paid at the pool itself.
    pub proof fn law_v10_fees_follow_pool(
        &self,
        db0: InMemoryDB,
        db: InMemoryDB,
        arbos_version: int,
        update_time: int,
        current_time: int,
        p: Seq<u8>,
        wei_spent: int,
        l1_basefee: int,
    )
        requires
            arbos_version >= ARBOS_VERSION_10,
            self.spending_applied_v10(db0, db, arbos_version, update_time, current_time, p, wei_spent, l1_basefee),
            self.pay_rewards_to_in(db0) != funds_pool_bytes(),
            self.pay_to_before(db0, p) != funds_pool_bytes(),
        ensures
            self.field(db0, 11) - self.field(db, 11) == balance_value(db0, funds_pool_bytes()) - balance_value(
                db,
                funds_pool_bytes(),
            ),
    {
        let f = self.figures_v10(db0, arbos_version, update_time, current_time, p, wei_spent, l1_basefee);
        let fa = self.fields_after_v10(db0, arbos_version, update_time, f);
        assert(self.field(db, 11) == self.fields(db)[11]);
        assert(fa[11] == f.fees_after);
        let m0 = db_balances(db0);
        let m1 = moved(m0, funds_pool_bytes(), self.pay_rewards_to_in(db0), f.rewards_paid);
        let m2 = moved(m1, funds_pool_bytes(), self.pay_to_before(db0, p), f.settled);
        assert(balance_in(m1, funds_pool_bytes()) == balance_in(m0, funds_pool_bytes()) - f.rewards_paid);
        assert(balance_in(m2, funds_pool_bytes()) == balance_in(m1, funds_pool_bytes()) - f.settled);
    }
}

/// The result of the update before version 10 for the first version's
/// result: passed on, an error as a storage error.
pub open spec fn pre2_result_passed_on(r: Result<(), Infallible>) -> Result<(), UpdateSpendingError<Infallible>> {
    match r {
        Ok(()) => Ok(()),
        Err(e) => Err(UpdateSpendingError::Db(e)),
    }
}

/// Whether account `a` can receive all that the L1 fees pool holds without
/// its balance overflowing (the pool itself always can).
pub open spec fn pool_payable_to(db: InMemoryDB, a: Seq<u8>) -> bool {
    a != funds_pool_bytes() ==> balance_value(db, a) + balance_value(db, funds_pool_bytes()) <= u256_max()
}

/// Whether each of `accounts` can receive all that the L1 fees pool holds.
#[verifier::opaque]
pub open spec fn all_pool_payable(db: InMemoryDB, accounts: Set<Seq<u8>>) -> bool {
    forall|a: Seq<u8>| #[trigger] accounts.contains(a) ==> pool_payable_to(db, a)
}

impl<B: Burner> L1PricingState<B> {
    /// What opening a poster leaves: the fields and balances as they were,
    /// a consistent table holding the poster with its entry as before
    /// opening (owed nothing, paid at its own address, where it was added).
    pub proof fn lemma_opened(&self, db0: InMemoryDB, db1: InMemoryDB, p: Seq<u8>)
        requires
            self.inv(),
            self.table().valid(db0),
            p.len() == 20,
            self.poster_opened(db0, db1, p),
        ensures
            self.table().valid(db1),
            self.table().is_poster(db1, p),
            self.table().posters(db1) == if self.table().is_poster(db0, p) {
                self.table().posters(db0)
            } else {
                self.table().posters(db0).push(p)
            },
            self.table().due_in(db1, p) == self.due_before(db0, p),
            self.table().pay_to_in(db1, p) == self.pay_to_before(db0, p),
            self.table().total_in(db1) == self.table().total_in(db0),
            forall|q: Seq<u8>| q.len() == 20 && q != p ==> #[trigger] self.table().due_in(db1, q) == self.table().due_in(db0, q)
                && self.table().pay_to_in(db1, q) == self.table().pay_to_in(db0, q),
            forall|i: int| 0 <= i <= 12 ==> #[trigger] self.field(db1, i) == self.field(db0, i),
            self.fields(db1) == self.fields(db0),
            self.slots_outside_kept(db0, db1),
            db_balances(db1) == db_balances(db0),
    {
        self.lemma_table();
        let t = self.table();
        if !t.is_poster(db0, p) {
            assert forall|i: int| 0 <= i <= 12 implies #[trigger] self.field(db1, i) == self.field(db0, i) by {
                assert(!t.in_footprint(self.field_slot(i)));
            }
            assert forall|acc: Seq<u8>, s: int| !(acc == self.account() && self.in_footprint(s)) implies #[trigger] slot_value(
                db1,
                acc,
                s,
            ) == slot_value(db0, acc, s) by {
                if acc == self.account() {
                    assert(!t.in_footprint(s));
                }
            }
        }
        assert(self.fields(db1) =~= self.fields(db0));
    }

    /// Opening `p` and then writing the units since the last update keep
    /// the rewards recipient and where `p` is to be paid, and what they can
    /// receive from the L1 fees pool.
    proof fn lemma_payable_after_units(
        &self,
        db0: InMemoryDB,
        db1: InMemoryDB,
        db2: InMemoryDB,
        arbos_version: int,
        p: Seq<u8>,
        units: int,
    )
        requires
            self.inv(),
            self.table().valid(db0),
            p.len() == 20,
            self.poster_opened(db0, db1, p),
            db_slot_written(db1, db2, self.account(), self.field_slot(6), units),
            self.update_payable(db0, arbos_version, p),
        ensures
            pool_payable_to(db2, self.pay_rewards_to_in(db2)),
            pool_payable_to(db2, self.table().pay_to_in(db2, p)),
    {
        reveal(L1PricingState::update_payable);
        self.lemma_opened(db0, db1, p);
        self.lemma_table();
        let acct = self.account();
        let sk = self.key();
        assert(self.field(db2, 0) == self.field(db1, 0));
        assert forall|acc: Seq<u8>, s: int|
            !(acc == acct && (is_field_slot(sk, s) || s == self.table().total_slot() || s == self.table().due_slot(p)))
                implies #[trigger] slot_value(db2, acc, s) == slot_value(db1, acc, s) by {
            if acc == acct {
                assert(s != slot_of(sk, 6));
            }
        }
        self.lemma_entry_written(db1, db2, p);
    }

    /// After opening `p`, where the posters are paid can receive all that
    /// the L1 fees pool holds, where the balances are as they were.
    proof fn lemma_opened_payable(&self, db0: InMemoryDB, db1: InMemoryDB, db2: InMemoryDB, p: Seq<u8>)
        requires
            self.inv(),
            self.table().valid(db0),
            p.len() == 20,
            self.poster_opened(db0, db1, p),
            self.update_payable(db0, 1, p),
            db_balances(db2) == db_balances(db0),
            self.field(db2, 0) == self.field(db1, 0),
        ensures
            pool_payable_to(db2, self.pay_rewards_to_in(db2)),
            all_pool_payable(db2, self.payees(db1)),
    {
        reveal(L1PricingState::update_payable);
        reveal(all_pool_payable);
        self.lemma_opened(db0, db1, p);
        self.lemma_payees_opened(db0, db1, p);
        assert forall|a: Seq<u8>| #[trigger] self.payees(db1).contains(a) implies pool_payable_to(db2, a) by {
            assert(pool_payable_to(db0, a));
        }
    }

    /// Where the posters are paid after opening `p`: where they were paid
    /// before, and where `p` was to be paid.
    proof fn lemma_payees_opened(&self, db0: InMemoryDB, db1: InMemoryDB, p: Seq<u8>)
        requires
            self.inv(),
            self.table().valid(db0),
            p.len() == 20,
            self.poster_opened(db0, db1, p),
        ensures
            forall|a: Seq<u8>| #[trigger] self.payees(db1).contains(a) ==> self.payees(db0).contains(a) || a
                == self.pay_to_before(db0, p),
    {
        self.lemma_opened(db0, db1, p);
        self.table().lemma_posters(db1);
        self.lemma_payees_grown(db0, db1, p);
    }

    /// Where the posters are paid, where the posters are those of `db0`,
    /// with `p` added where it is new, each paid as in `db0` but `p`.
    proof fn lemma_payees_grown(&self, db0: InMemoryDB, db1: InMemoryDB, p: Seq<u8>)
        requires
            self.table().posters(db1) == if self.table().is_poster(db0, p) {
                self.table().posters(db0)
            } else {
                self.table().posters(db0).push(p)
            },
            self.table().pay_to_in(db1, p) == self.pay_to_before(db0, p),
            forall|q: Seq<u8>| q.len() == 20 && q != p ==> #[trigger] self.table().due_in(db1, q) == self.table().due_in(db0, q)
                && self.table().pay_to_in(db1, q) == self.table().pay_to_in(db0, q),
            forall|i: int| 0 <= i < self.table().posters(db1).len() ==> (#[trigger] self.table().posters(db1)[i]).len() == 20,
        ensures
            forall|a: Seq<u8>| #[trigger] self.payees(db1).contains(a) ==> self.payees(db0).contains(a) || a
                == self.pay_to_before(db0, p),
    {
        reveal(L1PricingState::payees);
        let t = self.table();
        let ps0 = t.posters(db0);
        let ps1 = t.posters(db1);
        assert forall|a: Seq<u8>| #[trigger] self.payees(db1).contains(a) implies self.payees(db0).contains(a) || a
            == self.pay_to_before(db0, p) by {
            let k = choose|k: int| 0 <= k < ps1.len() && a == t.pay_to_in(db1, #[trigger] ps1[k]);
            let q = ps1[k];
            if q != p {
                assert(q.len() == 20);
                assert(k < ps0.len());
                assert(ps0[k] == q);
                assert(t.due_in(db1, q) == t.due_in(db0, q));
                assert(0 <= k < ps0.len() && a == t.pay_to_in(db0, ps0[k]));
            }
        }
    }

    /// Where the posters are paid is kept where the posters and where each
    /// is paid are.
    proof fn lemma_payees_kept(&self, db1: InMemoryDB, db2: InMemoryDB, p: Seq<u8>)
        requires
            self.table().valid(db1),
            self.table().posters(db2) == self.table().posters(db1),
            self.table().pay_to_in(db2, p) == self.table().pay_to_in(db1, p),
            forall|q: Seq<u8>| q.len() == 20 && q != p ==> #[trigger] self.table().due_in(db2, q) == self.table().due_in(db1, q)
                && self.table().pay_to_in(db2, q) == self.table().pay_to_in(db1, q),
        ensures
            self.payees(db2) == self.payees(db1),
    {
        reveal(L1PricingState::payees);
        let t = self.table();
        t.lemma_posters(db1);
        let ps = t.posters(db1);
        assert forall|k: int| 0 <= k < ps.len() implies #[trigger] t.pay_to_in(db2, ps[k]) == t.pay_to_in(db1, ps[k]) by {
            if ps[k] != p {
                assert(t.due_in(db2, ps[k]) == t.due_in(db1, ps[k]));
            }
        }
        assert forall|a: Seq<u8>| self.payees(db2).contains(a) <==> self.payees(db1).contains(a) by {
            if self.payees(db2).contains(a) {
                let k = choose|k: int| 0 <= k < ps.len() && a == t.pay_to_in(db2, #[trigger] ps[k]);
                assert(t.pay_to_in(db2, ps[k]) == t.pay_to_in(db1, ps[k]));
            }
            if self.payees(db1).contains(a) {
                let k = choose|k: int| 0 <= k < ps.len() && a == t.pay_to_in(db1, #[trigger] ps[k]);
                assert(t.pay_to_in(db2, ps[k]) == t.pay_to_in(db1, ps[k]));
            }
        }
        assert(self.payees(db2) =~= self.payees(db1));
    }

    /// What writing fields and poster `p`'s amount and the table's total
    /// leaves of the table: a consistent table with the same posters and
    /// every other entry as it was.
    pub proof fn lemma_entry_written(&self, db1: InMemoryDB, db2: InMemoryDB, p: Seq<u8>)
        requires
            self.inv(),
            self.table().valid(db1),
            p.len() == 20,
            forall|acc: Seq<u8>, s: int|
                !(acc == self.account() && (is_field_slot(self.key(), s) || s == self.table().total_slot() || s
                    == self.table().due_slot(p))) ==> #[trigger] slot_value(db2, acc, s) == slot_value(db1, acc, s),
        ensures
            self.table().valid(db2),
            self.table().posters(db2) == self.table().posters(db1),
            forall|q: Seq<u8>| q.len() == 20 ==> #[trigger] self.table().is_poster(db2, q) == self.table().is_poster(db1, q),
            self.table().pay_to_in(db2, p) == self.table().pay_to_in(db1, p),
            forall|q: Seq<u8>| q.len() == 20 && q != p ==> #[trigger] self.table().due_in(db2, q) == self.table().due_in(db1, q)
                && self.table().pay_to_in(db2, q) == self.table().pay_to_in(db1, q),
            self.slots_outside_kept(db1, db2),
    {
        self.lemma_table();
        let t = self.table();
        let sk = self.key();
        assert forall|s: int| t.in_set_footprint(s) implies #[trigger] slot_value(db2, t.account(), s) == slot_value(
            db1,
            t.account(),
            s,
        ) by {
            assert(in_table_of(sk, s));
            if is_field_slot(sk, s) {
                let i = choose|i: int| 0 <= i <= 12 && s == slot_of(sk, i);
                assert(!in_table_of(sk, slot_of(sk, i)));
            }
        }
        t.lemma_set_kept(db1, db2);
        assert(!is_field_slot(sk, t.pay_to_slot(p))) by {
            if is_field_slot(sk, t.pay_to_slot(p)) {
                let i = choose|i: int| 0 <= i <= 12 && t.pay_to_slot(p) == slot_of(sk, i);
                assert(!in_table_of(sk, slot_of(sk, i)));
                assert(in_table_of(sk, t.pay_to_slot(p)));
            }
        }
        assert forall|q: Seq<u8>| q.len() == 20 && q != p implies #[trigger] t.due_in(db2, q) == t.due_in(db1, q)
            && t.pay_to_in(db2, q) == t.pay_to_in(db1, q) by {
            assert(in_table_of(sk, t.due_slot(q)));
            assert(in_table_of(sk, t.pay_to_slot(q)));
            if is_field_slot(sk, t.due_slot(q)) {
                let i = choose|i: int| 0 <= i <= 12 && t.due_slot(q) == slot_of(sk, i);
                assert(!in_table_of(sk, slot_of(sk, i)));
            }
            if is_field_slot(sk, t.pay_to_slot(q)) {
                let i = choose|i: int| 0 <= i <= 12 && t.pay_to_slot(q) == slot_of(sk, i);
                assert(!in_table_of(sk, slot_of(sk, i)));
            }
        }
        assert forall|acc: Seq<u8>, s: int| !(acc == self.account() && self.in_footprint(s)) implies #[trigger] slot_value(
            db2,
            acc,
            s,
        ) == slot_value(db1, acc, s) by {
            if acc == self.account() {
                assert(s != t.total_slot());
                assert(s != t.due_slot(p)) by {
                    assert(in_table_of(sk, t.due_slot(p)));
                }
            }
        }
    }
}

impl<B: Burner> L1PricingState<B> {
    /// Credits the poster of `poster_state` with `wei`, accrues the rewards
    /// for `units` units, pays the rewards from the fees available as far as
    /// they go and then the poster from what is left; returns the fees left.
    #[verifier::rlimit(100)]
    #[verifier::spinoff_prover]
    fn credit_and_pay(
        &mut self,
        poster_state: &mut BatchPosterState<B>,
        db: &mut InMemoryDB,
        wei: U256,
        units: u64,
        Ghost(p): Ghost<Seq<u8>>,
    ) -> (fees: U256)
        requires
            old(self).inv(),
            p.len() == 20,
            old(poster_state).inv(),
            old(poster_state).account() == old(self).account(),
            old(poster_state).due_slot() == old(self).table().due_slot(p),
            old(poster_state).pay_to_slot() == old(self).table().pay_to_slot(p),
            old(poster_state).total_slot() == old(self).table().total_slot(),
            old(self).field(*old(db), 3) <= u64_max(),
            payments_fit(
                settlement(
                    units as int,
                    wei.value(),
                    old(self).table().due_in(*old(db), p),
                    old(self).table().total_in(*old(db)),
                    old(self).field(*old(db), 3),
                    old(self).funds_due_for_rewards_in(*old(db)),
                    old(self).field(*old(db), 11),
                ),
                balance_value(*old(db), funds_pool_bytes()),
                old(self).pay_rewards_to_in(*old(db)) == funds_pool_bytes(),
            ),
            pool_payable_to(*old(db), old(self).pay_rewards_to_in(*old(db))),
            pool_payable_to(*old(db), old(self).table().pay_to_in(*old(db), p)),
        ensures
            *final(self) == *old(self),
            *final(poster_state) == *old(poster_state),
            ({
                let t = old(self).table();
                let f = settlement(
                    units as int,
                    wei.value(),
                    t.due_in(*old(db), p),
                    t.total_in(*old(db)),
                    old(self).field(*old(db), 3),
                    old(self).funds_due_for_rewards_in(*old(db)),
                    old(self).field(*old(db), 11),
                );
                let acct = old(self).account();
                let rewards_accrued = clamp_i256(
                    old(self).funds_due_for_rewards_in(*old(db)) + rewards_for(units as int, old(self).field(*old(db), 3)),
                );
                let credited = db_slots(*old(db)).insert(
                    (acct, t.total_slot()),
                    i256_raw(adjusted_total(t.total_in(*old(db)), f.due_credited, f.due_before)),
                ).insert((acct, t.due_slot(p)), i256_raw(f.due_credited)).insert(
                    (acct, old(self).field_slot(5)),
                    i256_raw(rewards_accrued),
                ).insert((acct, old(self).field_slot(5)), i256_raw(f.rewards_due)).insert(
                    (acct, old(self).field_slot(11)),
                    f.fees_after + f.settled,
                );
                &&& fees.value() == f.fees_after
                &&& db_slots(*final(db)) == if f.settled != 0 {
                    credited.insert((acct, old(self).field_slot(11)), f.fees_after).insert(
                        (acct, t.total_slot()),
                        i256_raw(f.total_after),
                    ).insert((acct, t.due_slot(p)), i256_raw(f.due_after))
                } else {
                    credited
                }
                &&& db_balances(*final(db)) == moved(
                    moved(db_balances(*old(db)), funds_pool_bytes(), old(self).pay_rewards_to_in(*old(db)), f.rewards_paid),
                    funds_pool_bytes(),
                    t.pay_to_in(*old(db), p),
                    f.settled,
                )
            }),
    {
        proof {
            self.lemma_table();
        }
        let ghost db0 = *db;
        let ghost acct = self.account();
        let ghost t = self.table();
        let ghost pool = funds_pool_bytes();
        let due_to_poster = poster_state.funds_due(db);
        proof {
            lemma_i256_raw(due_to_poster);
        }
        let due_credited = i256_saturating_add(due_to_poster, I256::from_u256_saturating(wei));
        poster_state.set_funds_due(db, due_credited);
        proof {
            lemma_i256_raw(due_credited);
        }
        let ghost db1 = *db;
        proof {
            assert(self.field(db1, 3) == self.field(db0, 3));
            assert(self.field(db1, 11) == self.field(db0, 11));
            assert(self.field(db1, 0) == self.field(db0, 0));
            assert(self.field(db1, 5) == self.field(db0, 5));
            assert(balance_value(db1, pool) == balance_value(db0, pool));
            assert(db_balances(db1) == db_balances(db0));
        }
        let fees = self.pay_rewards(db, units);
        let ghost db2 = *db;
        proof {
            let r = self.pay_rewards_to_in(db0);
            let payto = t.pay_to_in(db0, p);
            assert(t.pay_to_in(db2, p) == payto) by {
                assert(t.pay_to_slot(p) != t.due_slot(p));
                assert(t.pay_to_slot(p) != t.total_slot());
            }
            assert(t.due_in(db2, p) == due_credited.value());
            assert(t.total_in(db2) == t.total_in(db1));
            let paid = min_of(rewards_for(units as int, self.field(db0, 3)), self.field(db0, 11));
            assert(fees.value() == self.field(db0, 11) - paid);
            let f = settlement(
                units as int,
                wei.value(),
                t.due_in(db0, p),
                t.total_in(db0),
                self.field(db0, 3),
                self.funds_due_for_rewards_in(db0),
                self.field(db0, 11),
            );
            assert(f.due_credited == due_credited.value());
            assert(f.rewards_paid == paid);
            let due1 = t.due_in(db2, p);
            let settled = if due1 > 0 {
                min_of(fees.value(), due1)
            } else {
                0
            };
            assert(settled == f.settled);
            if r != pool && paid != 0 {
                assert(balance_value(db2, pool) == balance_value(db0, pool) - paid);
            } else {
                assert(balance_value(db2, pool) == balance_value(db0, pool));
            }
            assert(settled <= balance_value(db2, pool));
            if payto != pool {
                assert(balance_value(db0, payto) + balance_value(db0, pool) <= u256_max());
                if r != pool && paid != 0 && payto == r {
                    assert(balance_value(db2, payto) == balance_value(db0, payto) + paid);
                } else {
                    assert(balance_value(db2, payto) == balance_value(db0, payto));
                }
                assert(balance_value(db2, payto) + settled <= u256_max());
            }
        }
        let r = self.pay_poster(poster_state, db, fees, Ghost(p));
        proof {
            let f = settlement(
                units as int,
                wei.value(),
                t.due_in(db0, p),
                t.total_in(db0),
                self.field(db0, 3),
                self.funds_due_for_rewards_in(db0),
                self.field(db0, 11),
            );
            assert(self.pay_rewards_to_in(db1) == self.pay_rewards_to_in(db0));
            assert(self.funds_due_for_rewards_in(db1) == self.funds_due_for_rewards_in(db0));
            assert(f.due_credited == due_credited.value());
            assert(t.due_in(db2, p) == f.due_credited);
            assert(fees.value() == f.fees_after + f.settled);
            assert(r.value() == f.fees_after);
        }
        r
    }

    /// Accrues the rewards for `units` units and pays them from the fees
    /// available, as far as they go; returns the fees left.
    fn pay_rewards(&mut self, db: &mut InMemoryDB, units: u64) -> (fees: U256)
        requires
            old(self).inv(),
            old(self).field(*old(db), 3) <= u64_max(),
            min_of(rewards_for(units as int, old(self).field(*old(db), 3)), old(self).field(*old(db), 11)) <= balance_value(
                *old(db),
                funds_pool_bytes(),
            ),
            pool_payable_to(*old(db), old(self).pay_rewards_to_in(*old(db))),
        ensures
            *final(self) == *old(self),
            ({
                let st = *old(self);
                let owed = rewards_for(units as int, st.field(*old(db), 3));
                let paid = min_of(owed, st.field(*old(db), 11));
                let accrued = clamp_i256(st.funds_due_for_rewards_in(*old(db)) + owed);
                let rewards_due = clamp_i256(accrued - paid);
                &&& fees.value() == st.field(*old(db), 11) - paid
                &&& 0 <= paid
                &&& db_slots(*final(db)) == db_slots(*old(db)).insert((st.account(), st.field_slot(5)), i256_raw(accrued)).insert(
                    (st.account(), st.field_slot(5)),
                    i256_raw(rewards_due),
                ).insert((st.account(), st.field_slot(11)), fees.value())
                &&& db_balances(*final(db)) == moved(
                    db_balances(*old(db)),
                    funds_pool_bytes(),
                    st.pay_rewards_to_in(*old(db)),
                    paid,
                )
            }),
    {
        proof {
            self.lemma_table();
        }
        let ghost db0 = *db;
        let ghost pool = funds_pool_bytes();
        let l1_fees_available = self.l1_fees_available(db);
        let mut funds_due_for_rewards = self.funds_due_for_rewards(db);
        let per_unit_reward = self.per_unit_reward(db);
        let pay_rewards_to = self.pay_rewards_to(db);
        proof {
            lemma_i256_raw(funds_due_for_rewards);
            assert(0 <= units * per_unit_reward <= u64_max() * u64_max()) by (nonlinear_arith)
                requires
                    units <= u64_max(),
                    per_unit_reward <= u64_max(),
            ;
            assert(per_unit_reward * units == units * per_unit_reward) by (nonlinear_arith);
            reveal(rewards_for);
        }
        let owed = i256_saturating_mul(I256::from_u64(units), I256::from_u64(per_unit_reward));
        funds_due_for_rewards = i256_saturating_add(funds_due_for_rewards, owed);
        self.set_funds_due_for_rewards(db, funds_due_for_rewards);
        let mut payment_for_rewards = u256_saturating_mul(U256::from_u64(per_unit_reward), U256::from_u64(units));
        if l1_fees_available.lt(&payment_for_rewards) {
            payment_for_rewards = l1_fees_available;
        }
        funds_due_for_rewards = i256_saturating_sub(funds_due_for_rewards, I256::from_u256_saturating(payment_for_rewards));
        self.set_funds_due_for_rewards(db, funds_due_for_rewards);
        proof {
            lemma_i256_raw(funds_due_for_rewards);
            assert(self.field(*db, 11) == self.field(db0, 11));
            if pay_rewards_to.bytes@ != pool {
                assert(balance_value(db0, pay_rewards_to.bytes@) + balance_value(db0, pool) <= u256_max());
            }
        }
        self.pay_from_l1_fees(db, pay_rewards_to, payment_for_rewards)
    }

    /// Pays the poster of `poster_state` what it is owed from `fees`, the
    /// fees available, as far as they go; returns the fees left.
    fn pay_poster(&mut self, poster_state: &mut BatchPosterState<B>, db: &mut InMemoryDB, fees: U256, Ghost(p): Ghost<Seq<u8>>) -> (r: U256)
        requires
            old(self).inv(),
            p.len() == 20,
            old(poster_state).inv(),
            old(poster_state).account() == old(self).account(),
            old(poster_state).due_slot() == old(self).table().due_slot(p),
            old(poster_state).pay_to_slot() == old(self).table().pay_to_slot(p),
            old(poster_state).total_slot() == old(self).table().total_slot(),
            fees.value() == old(self).field(*old(db), 11),
            ({
                let due1 = old(self).table().due_in(*old(db), p);
                let settled = if due1 > 0 {
                    min_of(fees.value(), due1)
                } else {
                    0
                };
                let payto = old(self).table().pay_to_in(*old(db), p);
                &&& settled <= balance_value(*old(db), funds_pool_bytes())
                &&& payto != funds_pool_bytes() ==> balance_value(*old(db), payto) + settled <= u256_max()
            }),
        ensures
            *final(self) == *old(self),
            *final(poster_state) == *old(poster_state),
            ({
                let st = *old(self);
                let t = st.table();
                let due1 = t.due_in(*old(db), p);
                let settled = if due1 > 0 {
                    min_of(fees.value(), due1)
                } else {
                    0
                };
                &&& r.value() == fees.value() - settled
                &&& db_slots(*final(db)) == if settled != 0 {
                    db_slots(*old(db)).insert((st.account(), st.field_slot(11)), r.value()).insert(
                        (st.account(), t.total_slot()),
                        i256_raw(adjusted_total(t.total_in(*old(db)), due1 - settled, due1)),
                    ).insert((st.account(), t.due_slot(p)), i256_raw(due1 - settled))
                } else {
                    db_slots(*old(db))
                }
                &&& db_balances(*final(db)) == moved(
                    db_balances(*old(db)),
                    funds_pool_bytes(),
                    t.pay_to_in(*old(db), p),
                    settled,
                )
            }),
    {
        proof {
            self.lemma_table();
        }
        let ghost db0 = *db;
        let mut fees = fees;
        let balance_due_to_poster = poster_state.funds_due(db);
        proof {
            lemma_i256_raw(balance_due_to_poster);
        }
        if balance_due_to_poster.is_positive() {
            let balance_to_transfer = fees.min(balance_due_to_poster.to_u256_saturating());
            if !balance_to_transfer.is_zero() {
                let addr_to_pay = poster_state.pay_to(db);
                fees = self.pay_from_l1_fees(db, addr_to_pay, balance_to_transfer);
                let settled_due = i256_saturating_sub(balance_due_to_poster, I256::from_u256_saturating(balance_to_transfer));
                proof {
                    lemma_i256_raw(settled_due);
                    assert(slot_value(*db, self.account(), self.table().due_slot(p)) == slot_value(db0, self.account(), self.table().due_slot(p)));
                    assert(slot_value(*db, self.account(), self.table().total_slot()) == slot_value(db0, self.account(), self.table().total_slot()));
                }
                poster_state.set_funds_due(db, settled_due);
            }
        }
        fees
    }

    /// Records `update_time` as the time of the last update and, where the
    /// update took units, records the surplus of `funds` over what is owed
    /// and moves the price per unit.
    fn record_update(&mut self, db: &mut InMemoryDB, funds: U256, arbos_version: u64, update_time: u64, units: u64)
        requires
            old(self).inv(),
            old(self).field(*old(db), 2) <= u64_max(),
        ensures
            *final(self) == *old(self),
            db_balances(*final(db)) == db_balances(*old(db)),
            ({
                let st = *old(self);
                let surplus = surplus_of(
                    funds.value(),
                    st.table().total_in(*old(db)),
                    st.funds_due_for_rewards_in(*old(db)),
                );
                let timed = db_slots(*old(db)).insert((st.account(), st.field_slot(4)), update_time as int);
                db_slots(*final(db)) == if units > 0 {
                    timed.insert(
                        (st.account(), st.field_slot(8)),
                        if arbos_version < ARBOS_VERSION_7 {
                            abs(surplus)
                        } else {
                            i256_raw(surplus)
                        },
                    ).insert(
                        (st.account(), st.field_slot(7)),
                        price_after_change(
                            st.field(*old(db), 7),
                            price_change(
                                surplus,
                                st.last_surplus_in(*old(db)),
                                st.field(*old(db), 2),
                                st.field(*old(db), 1),
                                units as int,
                            ),
                        ),
                    )
                } else {
                    timed
                }
            }),
    {
        proof {
            self.lemma_table();
        }
        let ghost db0 = *db;
        self.set_last_update_time(db, update_time);
        if units > 0 {
            let total_funds_due = self.batch_poster_table.total_funds_due(db);
            let rewards_due = self.funds_due_for_rewards(db);
            let surplus = i256_saturating_sub(
                I256::from_u256_saturating(funds),
                i256_saturating_add(total_funds_due, rewards_due),
            );
            let inertia = self.inertia(db);
            let equil_units = self.equilibration_units(db);
            let price = self.price_per_unit(db);
            let old_surplus = self.last_surplus(db);
            let new_price = adjusted_price(price, surplus, old_surplus, inertia, equil_units, units);
            self.set_last_surplus(db, surplus, arbos_version);
            proof {
                lemma_i256_raw(surplus);
            }
            self.set_price_per_unit(db, new_price);
        }
    }

    /// What an update leaves of the table, from what it wrote after opening
    /// poster `p`: fields, the poster's amount and the table's total.
    proof fn lemma_table_after_update(
        &self,
        db0: InMemoryDB,
        db1: InMemoryDB,
        dbf: InMemoryDB,
        p: Seq<u8>,
        due_after: int,
        total_after: int,
    )
        requires
            self.inv(),
            self.table().valid(db0),
            p.len() == 20,
            self.poster_opened(db0, db1, p),
            forall|acc: Seq<u8>, s: int|
                !(acc == self.account() && (is_field_slot(self.key(), s) || s == self.table().total_slot() || s
                    == self.table().due_slot(p))) ==> #[trigger] slot_value(dbf, acc, s) == slot_value(db1, acc, s),
            self.table().due_in(dbf, p) == due_after,
            self.table().total_in(dbf) == total_after,
        ensures
            self.table_after_update(db0, dbf, p, due_after, total_after),
    {
        self.lemma_opened(db0, db1, p);
        self.lemma_entry_written(db1, dbf, p);
    }

    /// Where the pool covers an update's payments, it covers them from
    /// the state that the update credits and pays the poster in.
    proof fn lemma_v10_fit_at_credit(
        &self,
        db0: InMemoryDB,
        db1: InMemoryDB,
        db2: InMemoryDB,
        arbos_version: int,
        update_time: int,
        current_time: int,
        p: Seq<u8>,
        wei_spent: int,
        l1_basefee: int,
        units: int,
        wei: int,
    )
        requires
            self.inv(),
            self.table().valid(db0),
            p.len() == 20,
            self.poster_opened(db0, db1, p),
            units == self.figures_v10(db0, arbos_version, update_time, current_time, p, wei_spent, l1_basefee).units_allocated,
            wei == self.figures_v10(db0, arbos_version, update_time, current_time, p, wei_spent, l1_basefee).credited,
            db_slots(db2) == db_slots(db1).insert((self.account(), self.field_slot(6)), self.field(db1, 6) - units),
            db_balances(db2) == db_balances(db1),
            !self.times_invalid(db0, update_time, current_time),
            self.v10_payments_fit(db0, arbos_version, update_time, current_time, p, wei_spent, l1_basefee),
        ensures
            payments_fit(
                settlement(
                    units,
                    wei,
                    self.table().due_in(db2, p),
                    self.table().total_in(db2),
                    self.field(db2, 3),
                    self.funds_due_for_rewards_in(db2),
                    self.field(db2, 11),
                ),
                balance_value(db2, funds_pool_bytes()),
                self.pay_rewards_to_in(db2) == funds_pool_bytes(),
            ),
    {
        self.lemma_table();
        self.lemma_opened(db0, db1, p);
        let t = self.table();
        assert(self.field(db1, 0) == self.field(db0, 0));
        assert(self.field(db1, 3) == self.field(db0, 3));
        assert(self.field(db1, 5) == self.field(db0, 5));
        assert(self.field(db1, 11) == self.field(db0, 11));
        assert(t.due_in(db2, p) == self.due_before(db0, p));
        assert(t.total_in(db2) == t.total_in(db0));
        assert(self.funds_due_for_rewards_in(db2) == self.funds_due_for_rewards_in(db0));
        assert(self.field(db2, 0) == self.field(db0, 0));
        assert(self.field(db2, 3) == self.field(db0, 3));
        assert(self.field(db2, 11) == self.field(db0, 11));
    }

    /// Puts together what the steps of a spending update from version 10 on
    /// wrote: the update as a whole.
    #[verifier::rlimit(100)]
    #[verifier::spinoff_prover]
    proof fn lemma_v10_composed(
        &self,
        db0: InMemoryDB,
        db1: InMemoryDB,
        db2: InMemoryDB,
        db3: InMemoryDB,
        dbf: InMemoryDB,
        arbos_version: int,
        update_time: int,
        current_time: int,
        p: Seq<u8>,
        wei_spent: int,
        l1_basefee: int,
        units: int,
        wei: int,
    )
        requires
            self.inv(),
            self.table().valid(db0),
            p.len() == 20,
            self.poster_opened(db0, db1, p),
            units == self.figures_v10(db0, arbos_version, update_time, current_time, p, wei_spent, l1_basefee).units_allocated,
            wei == self.figures_v10(db0, arbos_version, update_time, current_time, p, wei_spent, l1_basefee).credited,
            db_slots(db2) == db_slots(db1).insert((self.account(), self.field_slot(6)), self.field(db1, 6) - units),
            db_balances(db2) == db_balances(db1),
            ({
                let t = self.table();
                let f = settlement(
                    units,
                    wei,
                    t.due_in(db2, p),
                    t.total_in(db2),
                    self.field(db2, 3),
                    self.funds_due_for_rewards_in(db2),
                    self.field(db2, 11),
                );
                let acct = self.account();
                let rewards_accrued = clamp_i256(
                    self.funds_due_for_rewards_in(db2) + rewards_for(units, self.field(db2, 3)),
                );
                let credited = db_slots(db2).insert(
                    (acct, t.total_slot()),
                    i256_raw(adjusted_total(t.total_in(db2), f.due_credited, f.due_before)),
                ).insert((acct, t.due_slot(p)), i256_raw(f.due_credited)).insert(
                    (acct, self.field_slot(5)),
                    i256_raw(rewards_accrued),
                ).insert((acct, self.field_slot(5)), i256_raw(f.rewards_due)).insert(
                    (acct, self.field_slot(11)),
                    f.fees_after + f.settled,
                );
                &&& db_slots(db3) == if f.settled != 0 {
                    credited.insert((acct, self.field_slot(11)), f.fees_after).insert(
                        (acct, t.total_slot()),
                        i256_raw(f.total_after),
                    ).insert((acct, t.due_slot(p)), i256_raw(f.due_after))
                } else {
                    credited
                }
                &&& db_balances(db3) == moved(
                    moved(db_balances(db2), funds_pool_bytes(), self.pay_rewards_to_in(db2), f.rewards_paid),
                    funds_pool_bytes(),
                    t.pay_to_in(db2, p),
                    f.settled,
                )
            }),
            ({
                let surplus = surplus_of(
                    self.field(db3, 11),
                    self.table().total_in(db3),
                    self.funds_due_for_rewards_in(db3),
                );
                let timed = db_slots(db3).insert((self.account(), self.field_slot(4)), update_time);
                db_slots(dbf) == if units > 0 {
                    timed.insert(
                        (self.account(), self.field_slot(8)),
                        if arbos_version < ARBOS_VERSION_7 {
                            abs(surplus)
                        } else {
                            i256_raw(surplus)
                        },
                    ).insert(
                        (self.account(), self.field_slot(7)),
                        price_after_change(
                            self.field(db3, 7),
                            price_change(
                                surplus,
                                self.last_surplus_in(db3),
                                self.field(db3, 2),
                                self.field(db3, 1),
                                units,
                            ),
                        ),
                    )
                } else {
                    timed
                }
            }),
            db_balances(dbf) == db_balances(db3),
        ensures
            self.spending_applied_v10(db0, dbf, arbos_version, update_time, current_time, p, wei_spent, l1_basefee),
    {
        self.lemma_table();
        self.lemma_opened(db0, db1, p);
        let acct = self.account();
        let sk = self.key();
        let t = self.table();
        let f = self.figures_v10(
            db0,
            arbos_version,
            update_time,
            current_time,
            p,
            wei_spent,
            l1_basefee,
        );
        let tot = t.total_slot();
        let due = t.due_slot(p);
        assert(self.field(db1, 0) == self.field(db0, 0));
        assert(self.field(db1, 1) == self.field(db0, 1));
        assert(self.field(db1, 2) == self.field(db0, 2));
        assert(self.field(db1, 3) == self.field(db0, 3));
        assert(self.field(db1, 5) == self.field(db0, 5));
        assert(self.field(db1, 7) == self.field(db0, 7));
        assert(self.field(db1, 8) == self.field(db0, 8));
        assert(self.field(db1, 11) == self.field(db0, 11));
        assert(t.due_in(db2, p) == self.due_before(db0, p));
        assert(t.total_in(db2) == t.total_in(db0));
        assert(self.funds_due_for_rewards_in(db2) == self.funds_due_for_rewards_in(db0));
        assert(self.field(db2, 3) == self.field(db0, 3));
        assert(self.field(db2, 11) == self.field(db0, 11));
        assert(self.field(db3, 11) == f.fees_after);
        assert(t.total_in(db3) == f.total_after);
        assert(self.funds_due_for_rewards_in(db3) == f.rewards_due);
        assert(self.field(db3, 8) == self.field(db0, 8));
        assert(self.field(db3, 7) == self.field(db0, 7));
        assert(self.field(db3, 1) == self.field(db0, 1));
        assert(self.field(db3, 2) == self.field(db0, 2));
        let expected = self.fields_after_v10(db0, arbos_version, update_time, f);
        assert forall|i: int| 0 <= i < 13 implies #[trigger] self.fields(dbf)[i] == expected[i] by {
            assert(self.field(db1, i) == self.field(db0, i));
        }
        assert(self.fields(dbf) =~= expected);
        assert forall|acc: Seq<u8>, s: int|
            !(acc == acct && (is_field_slot(sk, s) || s == tot || s == due)) implies #[trigger] slot_value(dbf, acc, s)
                == slot_value(db1, acc, s) by {
            if acc == acct {
                assert(s != slot_of(sk, 4));
                assert(s != slot_of(sk, 5));
                assert(s != slot_of(sk, 6));
                assert(s != slot_of(sk, 7));
                assert(s != slot_of(sk, 8));
                assert(s != slot_of(sk, 11));
            }
        }
        assert(t.due_in(dbf, p) == f.due_after);
        assert(t.total_in(dbf) == f.total_after);
        self.lemma_table_after_update(db0, db1, dbf, p, f.due_after, f.total_after);
    }

    /// Accrues the rewards for `units` units and pays them from the L1 fees
    /// pool's balance, as far as it goes.
    fn pay_rewards_from_pool(&mut self, db: &mut InMemoryDB, units: u64)
        requires
            old(self).inv(),
            old(self).field(*old(db), 3) <= u64_max(),
            pool_payable_to(*old(db), old(self).pay_rewards_to_in(*old(db))),
        ensures
            *final(self) == *old(self),
            ({
                let st = *old(self);
                let owed = rewards_for(units as int, st.field(*old(db), 3));
                let paid = min_of(owed, balance_value(*old(db), funds_pool_bytes()));
                let accrued = clamp_i256(st.funds_due_for_rewards_in(*old(db)) + owed);
                &&& 0 <= paid
                &&& 0 <= balance_value(*old(db), funds_pool_bytes())
                &&& db_slots(*final(db)) == db_slots(*old(db)).insert((st.account(), st.field_slot(5)), i256_raw(accrued)).insert(
                    (st.account(), st.field_slot(5)),
                    i256_raw(clamp_i256(accrued - paid)),
                )
                &&& db_balances(*final(db)) == moved(
                    db_balances(*old(db)),
                    funds_pool_bytes(),
                    st.pay_rewards_to_in(*old(db)),
                    paid,
                )
            }),
    {
        proof {
            self.lemma_table();
        }
        let ghost db0 = *db;
        let ghost pool = funds_pool_bytes();
        let mut funds_due_for_rewards = self.funds_due_for_rewards(db);
        let per_unit_reward = self.per_unit_reward(db);
        proof {
            lemma_i256_raw(funds_due_for_rewards);
            assert(0 <= units * per_unit_reward <= u64_max() * u64_max()) by (nonlinear_arith)
                requires
                    units <= u64_max(),
                    per_unit_reward <= u64_max(),
            ;
            assert(per_unit_reward * units == units * per_unit_reward) by (nonlinear_arith);
            reveal(rewards_for);
        }
        let owed = i256_saturating_mul(I256::from_u64(units), I256::from_u64(per_unit_reward));
        funds_due_for_rewards = i256_saturating_add(funds_due_for_rewards, owed);
        self.set_funds_due_for_rewards(db, funds_due_for_rewards);
        let pool_address = l1_pricer_funds_pool_address();
        let pool_balance = read_balance(db, pool_address);
        let mut payment_for_rewards = u256_saturating_mul(U256::from_u64(per_unit_reward), U256::from_u64(units));
        if pool_balance.lt(&payment_for_rewards) {
            payment_for_rewards = pool_balance;
        }
        funds_due_for_rewards = i256_saturating_sub(funds_due_for_rewards, I256::from_u256_saturating(payment_for_rewards));
        self.set_funds_due_for_rewards(db, funds_due_for_rewards);
        proof {
            lemma_i256_raw(funds_due_for_rewards);
        }
        let pay_rewards_to = self.pay_rewards_to(db);
        if !payment_for_rewards.is_zero() {
            proof {
                if pay_rewards_to.bytes@ != pool {
                    assert(balance_value(db0, pay_rewards_to.bytes@) + balance_value(db0, pool) <= u256_max());
                }
            }
            match transfer(db, pool_address, pay_rewards_to, payment_for_rewards) {
                Ok(()) => {},
                Err(_) => {
                    proof {
                        assert(false);
                    }
                },
            }
        }
    }

    /// Pays the poster of `poster_state` what it is owed from the L1 fees
    /// pool's balance, as far as it goes.
    fn pay_poster_from_pool(&mut self, poster_state: &mut BatchPosterState<B>, db: &mut InMemoryDB, Ghost(p): Ghost<Seq<u8>>)
        requires
            old(self).inv(),
            p.len() == 20,
            old(poster_state).inv(),
            old(poster_state).account() == old(self).account(),
            old(poster_state).due_slot() == old(self).table().due_slot(p),
            old(poster_state).pay_to_slot() == old(self).table().pay_to_slot(p),
            old(poster_state).total_slot() == old(self).table().total_slot(),
            old(self).table().pay_to_in(*old(db), p) != funds_pool_bytes() ==> balance_value(
                *old(db),
                old(self).table().pay_to_in(*old(db), p),
            ) + balance_value(*old(db), funds_pool_bytes()) <= u256_max(),
        ensures
            *final(self) == *old(self),
            *final(poster_state) == *old(poster_state),
            ({
                let st = *old(self);
                let t = st.table();
                let due1 = t.due_in(*old(db), p);
                let settled = if due1 > 0 {
                    min_of(balance_value(*old(db), funds_pool_bytes()), due1)
                } else {
                    0
                };
                &&& db_slots(*final(db)) == if settled != 0 {
                    db_slots(*old(db)).insert(
                        (st.account(), t.total_slot()),
                        i256_raw(adjusted_total(t.total_in(*old(db)), due1 - settled, due1)),
                    ).insert((st.account(), t.due_slot(p)), i256_raw(due1 - settled))
                } else {
                    db_slots(*old(db))
                }
                &&& db_balances(*final(db)) == moved(
                    db_balances(*old(db)),
                    funds_pool_bytes(),
                    t.pay_to_in(*old(db), p),
                    settled,
                )
            }),
    {
        proof {
            self.lemma_table();
        }
        let ghost db0 = *db;
        let pool_address = l1_pricer_funds_pool_address();
        let available_funds = read_balance(db, pool_address);
        let balance_due_to_poster = poster_state.funds_due(db);
        proof {
            lemma_i256_raw(balance_due_to_poster);
        }
        if balance_due_to_poster.is_positive() {
            let balance_to_transfer = available_funds.min(balance_due_to_poster.to_u256_saturating());
            if !balance_to_transfer.is_zero() {
                let addr_to_pay = poster_state.pay_to(db);
                match transfer(db, pool_address, addr_to_pay, balance_to_transfer) {
                    Ok(()) => {},
                    Err(_) => {
                        proof {
                            assert(false);
                        }
                    },
                }
                let settled_due = i256_saturating_sub(balance_due_to_poster, I256::from_u256_saturating(balance_to_transfer));
                proof {
                    lemma_i256_raw(settled_due);
                }
                poster_state.set_funds_due(db, settled_due);
            }
        }
    }

    /// Credits the poster of `poster_state` with `wei`, accrues the rewards
    /// for `units` units, pays them from the L1 fees pool's balance as far as
    /// it goes and then the poster from what the pool holds.
    #[verifier::rlimit(100)]
    #[verifier::spinoff_prover]
    fn credit_and_pay_from_pool(
        &mut self,
        poster_state: &mut BatchPosterState<B>,
        db: &mut InMemoryDB,
        wei: U256,
        units: u64,
        Ghost(p): Ghost<Seq<u8>>,
    )
        requires
            old(self).inv(),
            p.len() == 20,
            old(poster_state).inv(),
            old(poster_state).account() == old(self).account(),
            old(poster_state).due_slot() == old(self).table().due_slot(p),
            old(poster_state).pay_to_slot() == old(self).table().pay_to_slot(p),
            old(poster_state).total_slot() == old(self).table().total_slot(),
            old(self).field(*old(db), 3) <= u64_max(),
            pool_payable_to(*old(db), old(self).pay_rewards_to_in(*old(db))),
            pool_payable_to(*old(db), old(self).table().pay_to_in(*old(db), p)),
        ensures
            *final(self) == *old(self),
            *final(poster_state) == *old(poster_state),
            ({
                let t = old(self).table();
                let pool = funds_pool_bytes();
                let f = settlement_from_pool(
                    units as int,
                    wei.value(),
                    t.due_in(*old(db), p),
                    t.total_in(*old(db)),
                    old(self).field(*old(db), 3),
                    old(self).funds_due_for_rewards_in(*old(db)),
                    balance_value(*old(db), pool),
                    old(self).pay_rewards_to_in(*old(db)) == pool,
                    t.pay_to_in(*old(db), p) == pool,
                );
                let acct = old(self).account();
                let rewards_accrued = clamp_i256(
                    old(self).funds_due_for_rewards_in(*old(db)) + rewards_for(units as int, old(self).field(*old(db), 3)),
                );
                let credited = db_slots(*old(db)).insert(
                    (acct, t.total_slot()),
                    i256_raw(adjusted_total(t.total_in(*old(db)), f.due_credited, f.due_before)),
                ).insert((acct, t.due_slot(p)), i256_raw(f.due_credited)).insert(
                    (acct, old(self).field_slot(5)),
                    i256_raw(rewards_accrued),
                ).insert((acct, old(self).field_slot(5)), i256_raw(f.rewards_due));
                &&& db_slots(*final(db)) == if f.settled != 0 {
                    credited.insert((acct, t.total_slot()), i256_raw(f.total_after)).insert(
                        (acct, t.due_slot(p)),
                        i256_raw(f.due_after),
                    )
                } else {
                    credited
                }
                &&& db_balances(*final(db)) == moved(
                    moved(db_balances(*old(db)), pool, old(self).pay_rewards_to_in(*old(db)), f.rewards_paid),
                    pool,
                    t.pay_to_in(*old(db), p),
                    f.settled,
                )
                &&& balance_value(*final(db), pool) == f.fees_after
                &&& 0 <= balance_value(*old(db), pool)
            }),
    {
        proof {
            self.lemma_table();
        }
        let ghost db0 = *db;
        let ghost t = self.table();
        let ghost pool = funds_pool_bytes();
        let due_to_poster = poster_state.funds_due(db);
        proof {
            lemma_i256_raw(due_to_poster);
        }
        let due_credited = i256_saturating_add(due_to_poster, I256::from_u256_saturating(wei));
        poster_state.set_funds_due(db, due_credited);
        proof {
            lemma_i256_raw(due_credited);
        }
        let ghost db1 = *db;
        proof {
            assert(self.field(db1, 3) == self.field(db0, 3));
            assert(self.field(db1, 0) == self.field(db0, 0));
            assert(self.field(db1, 5) == self.field(db0, 5));
            assert(db_balances(db1) == db_balances(db0));
        }
        self.pay_rewards_from_pool(db, units);
        let ghost db2 = *db;
        proof {
            let r = self.pay_rewards_to_in(db0);
            let payto = t.pay_to_in(db0, p);
            assert(t.pay_to_in(db2, p) == payto) by {
                assert(t.pay_to_slot(p) != t.due_slot(p));
                assert(t.pay_to_slot(p) != t.total_slot());
            }
            assert(t.due_in(db2, p) == due_credited.value());
            assert(t.total_in(db2) == t.total_in(db1));
            let paid = min_of(rewards_for(units as int, self.field(db0, 3)), balance_value(db0, pool));
            if r != pool && paid != 0 {
                assert(balance_value(db2, pool) == balance_value(db0, pool) - paid);
            } else {
                assert(balance_value(db2, pool) == balance_value(db0, pool));
            }
            if payto != pool {
                assert(balance_value(db0, payto) + balance_value(db0, pool) <= u256_max());
                if r != pool && paid != 0 && payto == r {
                    assert(balance_value(db2, payto) == balance_value(db0, payto) + paid);
                } else {
                    assert(balance_value(db2, payto) == balance_value(db0, payto));
                }
                assert(balance_value(db2, payto) + balance_value(db2, pool) <= u256_max());
            }
        }
        self.pay_poster_from_pool(poster_state, db, Ghost(p));
    }

    /// Puts together what the steps of a spending update from version 2 up
    /// to version 10 wrote: the update as a whole.
    #[verifier::rlimit(100)]
    #[verifier::spinoff_prover]
    proof fn lemma_pre10_composed(
        &self,
        db0: InMemoryDB,
        db1: InMemoryDB,
        db2: InMemoryDB,
        db3: InMemoryDB,
        dbf: InMemoryDB,
        arbos_version: int,
        update_time: int,
        current_time: int,
        p: Seq<u8>,
        wei_spent: int,
        l1_basefee: int,
        units: int,
        wei: int,
        funds: int,
    )
        requires
            self.inv(),
            self.table().valid(db0),
            p.len() == 20,
            self.poster_opened(db0, db1, p),
            units == self.figures_pre10(db0, arbos_version, update_time, current_time, p, wei_spent, l1_basefee).units_allocated,
            wei == self.figures_pre10(db0, arbos_version, update_time, current_time, p, wei_spent, l1_basefee).credited,
            db_slots(db2) == db_slots(db1).insert((self.account(), self.field_slot(6)), self.field(db1, 6) - units),
            db_balances(db2) == db_balances(db1),
            ({
                let t = self.table();
                let pool = funds_pool_bytes();
                let f = settlement_from_pool(
                    units,
                    wei,
                    t.due_in(db2, p),
                    t.total_in(db2),
                    self.field(db2, 3),
                    self.funds_due_for_rewards_in(db2),
                    balance_value(db2, pool),
                    self.pay_rewards_to_in(db2) == pool,
                    t.pay_to_in(db2, p) == pool,
                );
                let acct = self.account();
                let rewards_accrued = clamp_i256(
                    self.funds_due_for_rewards_in(db2) + rewards_for(units, self.field(db2, 3)),
                );
                let credited = db_slots(db2).insert(
                    (acct, t.total_slot()),
                    i256_raw(adjusted_total(t.total_in(db2), f.due_credited, f.due_before)),
                ).insert((acct, t.due_slot(p)), i256_raw(f.due_credited)).insert(
                    (acct, self.field_slot(5)),
                    i256_raw(rewards_accrued),
                ).insert((acct, self.field_slot(5)), i256_raw(f.rewards_due));
                &&& db_slots(db3) == if f.settled != 0 {
                    credited.insert((acct, t.total_slot()), i256_raw(f.total_after)).insert(
                        (acct, t.due_slot(p)),
                        i256_raw(f.due_after),
                    )
                } else {
                    credited
                }
                &&& db_balances(db3) == moved(
                    moved(db_balances(db2), pool, self.pay_rewards_to_in(db2), f.rewards_paid),
                    pool,
                    t.pay_to_in(db2, p),
                    f.settled,
                )
                &&& funds == f.fees_after
                &&& 0 <= balance_value(db2, pool)
            }),
            ({
                let surplus = surplus_of(funds, self.table().total_in(db3), self.funds_due_for_rewards_in(db3));
                let timed = db_slots(db3).insert((self.account(), self.field_slot(4)), update_time);
                db_slots(dbf) == if units > 0 {
                    timed.insert(
                        (self.account(), self.field_slot(8)),
                        if arbos_version < ARBOS_VERSION_7 {
                            abs(surplus)
                        } else {
                            i256_raw(surplus)
                        },
                    ).insert(
                        (self.account(), self.field_slot(7)),
                        price_after_change(
                            self.field(db3, 7),
                            price_change(
                                surplus,
                                self.last_surplus_in(db3),
                                self.field(db3, 2),
                                self.field(db3, 1),
                                units,
                            ),
                        ),
                    )
                } else {
                    timed
                }
            }),
            db_balances(dbf) == db_balances(db3),
        ensures
            self.spending_applied_pre10(db0, dbf, arbos_version, update_time, current_time, p, wei_spent, l1_basefee),
    {
        self.lemma_table();
        self.lemma_opened(db0, db1, p);
        let acct = self.account();
        let sk = self.key();
        let t = self.table();
        let f = self.figures_pre10(db0, arbos_version, update_time, current_time, p, wei_spent, l1_basefee);
        let tot = t.total_slot();
        let due = t.due_slot(p);
        assert(self.field(db1, 0) == self.field(db0, 0));
        assert(self.field(db1, 1) == self.field(db0, 1));
        assert(self.field(db1, 2) == self.field(db0, 2));
        assert(self.field(db1, 3) == self.field(db0, 3));
        assert(self.field(db1, 5) == self.field(db0, 5));
        assert(self.field(db1, 7) == self.field(db0, 7));
        assert(self.field(db1, 8) == self.field(db0, 8));
        assert(self.field(db1, 11) == self.field(db0, 11));
        assert(t.due_in(db2, p) == self.due_before(db0, p));
        assert(t.pay_to_in(db2, p) == self.pay_to_before(db0, p));
        assert(t.total_in(db2) == t.total_in(db0));
        assert(self.funds_due_for_rewards_in(db2) == self.funds_due_for_rewards_in(db0));
        assert(self.pay_rewards_to_in(db2) == self.pay_rewards_to_in(db0));
        assert(self.field(db2, 3) == self.field(db0, 3));
        assert(balance_value(db2, funds_pool_bytes()) == balance_value(db0, funds_pool_bytes()));
        assert(funds == f.fees_after);
        assert(t.total_in(db3) == f.total_after);
        assert(self.funds_due_for_rewards_in(db3) == f.rewards_due);
        assert(self.field(db3, 8) == self.field(db0, 8));
        assert(self.field(db3, 7) == self.field(db0, 7));
        assert(self.field(db3, 1) == self.field(db0, 1));
        assert(self.field(db3, 2) == self.field(db0, 2));
        let expected = self.fields_after_pre10(db0, arbos_version, update_time, f);
        assert forall|i: int| 0 <= i < 13 implies #[trigger] self.fields(dbf)[i] == expected[i] by {
            assert(self.field(db1, i) == self.field(db0, i));
        }
        assert(self.fields(dbf) =~= expected);
        assert forall|acc: Seq<u8>, s: int|
            !(acc == acct && (is_field_slot(sk, s) || s == tot || s == due)) implies #[trigger] slot_value(dbf, acc, s)
                == slot_value(db1, acc, s) by {
            if acc == acct {
                assert(s != slot_of(sk, 4));
                assert(s != slot_of(sk, 5));
                assert(s != slot_of(sk, 6));
                assert(s != slot_of(sk, 7));
                assert(s != slot_of(sk, 8));
            }
        }
        assert(t.due_in(dbf, p) == f.due_after);
        assert(t.total_in(dbf) == f.total_after);
        self.lemma_table_after_update(db0, db1, dbf, p, f.due_after, f.total_after);
    }

    /// The spending update from version 2 up to version 10 (and, before
    /// version 2, the first version's update): as from version 10 on, but
    /// rewards and the poster are paid from the L1 fees pool's balance itself
    /// and the fees available are not touched.
    #[verifier::rlimit(100)]
    #[verifier::spinoff_prover]
    pub fn pre_version10_update_for_batch_poster_spending(
        &mut self,
        db: &mut InMemoryDB,
        arbos_version: u64,
        update_time: u64,
        current_time: u64,
        batch_poster: Address,
        wei_spent: U256,
        l1_basefee: U256,
    ) -> (r: Result<(), UpdateSpendingError<Infallible>>)
        where
            B: Clone,
        requires
            old(self).inv(),
            old(self).table().valid(*old(db)),
            old(self).table().has_room(*old(db)),
            old(self).field(*old(db), 2) <= u64_max(),
            old(self).field(*old(db), 3) <= u64_max(),
            old(self).field(*old(db), 4) <= u64_max(),
            old(self).field(*old(db), 6) <= u64_max(),
            arbos_version >= ARBOS_VERSION_3 ==> old(self).field(*old(db), 10) <= u64_max(),
            old(self).update_payable(*old(db), arbos_version as int, batch_poster.bytes@),
        ensures
            *final(self) == *old(self),
            old(self).pre10_outcome(
                *old(db),
                *final(db),
                r,
                arbos_version as int,
                update_time as int,
                current_time as int,
                batch_poster.bytes@,
                wei_spent.value(),
                l1_basefee.value(),
            ),
    {
        if arbos_version < ARBOS_VERSION_2 {
            proof {
                assert(self.update_payable(*db, 1, batch_poster.bytes@)) by {
                    reveal(L1PricingState::update_payable);
                }
            }
            return match self.pre_version2_update_for_batch_poster_spending(
                db,
                update_time,
                current_time,
                batch_poster,
                wei_spent,
            ) {
                Ok(()) => Ok(()),
                Err(e) => Err(UpdateSpendingError::Db(e)),
            };
        }
        let ghost db0 = *db;
        let ghost p = batch_poster.bytes@;
        let ghost acct = self.account();
        let ghost sk = self.key();
        proof {
            self.lemma_table();
        }
        let mut poster_state = match self.batch_poster_table.open_poster(db, batch_poster, true) {
            Ok(st) => st,
            Err(OpenPosterResult::Db(e)) => {
                return Err(UpdateSpendingError::Db(e));
            },
            Err(OpenPosterResult::Semantic(_)) => {
                proof {
                    assert(false);
                }
                return Err(UpdateSpendingError::InvalidTime);
            },
        };
        let ghost db1 = *db;
        proof {
            self.lemma_opened(db0, db1, p);
            assert(forall|i: int| 0 <= i <= 12 ==> #[trigger] slot_value(db1, acct, slot_of(sk, i)) == slot_value(db0, acct, slot_of(sk, i))) by {
                assert forall|i: int| 0 <= i <= 12 implies #[trigger] slot_value(db1, acct, slot_of(sk, i)) == slot_value(
                    db0,
                    acct,
                    slot_of(sk, i),
                ) by {
                    assert(self.field(db1, i) == self.field(db0, i));
                }
            }
        }
        let mut last_update_time = self.last_update_time(db);
        if last_update_time == 0 && update_time > 0 {
            last_update_time = update_time - 1;
        }
        if update_time > current_time || update_time < last_update_time {
            return Err(UpdateSpendingError::InvalidTime);
        }
        let (allocation_numerator, allocation_denominator) = allocation_fraction(
            last_update_time,
            update_time,
            current_time,
        );
        let units_since_update = self.units_since_update(db);
        let units_allocated = units_to_allocate(units_since_update, allocation_numerator, allocation_denominator);
        self.set_units_since_update(db, units_since_update - units_allocated);
        let mut wei = wei_spent;
        proof {
            assert(self.field(*db, 10) == self.field(db1, 10));
        }
        if arbos_version >= ARBOS_VERSION_3 {
            let amortized_cost_cap_bips = self.amortized_cost_cap_bips(db);
            wei = cap_spending(wei_spent, l1_basefee, units_allocated, amortized_cost_cap_bips);
        }
        let ghost db2 = *db;
        proof {
            assert(self.field(db2, 3) == self.field(db1, 3));
            assert(self.field(db2, 2) == self.field(db1, 2));
            assert(db_balances(db2) == db_balances(db0));
            self.lemma_payable_after_units(db0, db1, db2, arbos_version as int, p, units_since_update - units_allocated);
        }
        self.credit_and_pay_from_pool(&mut poster_state, db, wei, units_allocated, Ghost(p));
        let ghost db3 = *db;
        proof {
            assert(self.field(db3, 2) == self.field(db2, 2));
        }
        let funds = read_balance(db, l1_pricer_funds_pool_address());
        self.record_update(db, funds, arbos_version, update_time, units_allocated);
        proof {
            self.lemma_pre10_composed(
                db0,
                db1,
                db2,
                db3,
                *db,
                arbos_version as int,
                update_time as int,
                current_time as int,
                p,
                wei_spent.value(),
                l1_basefee.value(),
                units_allocated as int,
                wei.value(),
                funds.value(),
            );
        }
        Ok(())
    }

    /// Pays poster `poster_addr` what it is owed as far as `available`
    /// funds of the L1 fees pool go; returns the funds left.
    fn settle_poster(&mut self, db: &mut InMemoryDB, poster_addr: Address, available: U256) -> (r: U256)
        where
            B: Clone,
        requires
            old(self).inv(),
            old(self).table().valid(*old(db)),
            old(self).table().is_poster(*old(db), poster_addr.bytes@),
            available.value() <= balance_value(*old(db), funds_pool_bytes()),
            old(self).table().pay_to_in(*old(db), poster_addr.bytes@) != funds_pool_bytes() ==> balance_value(
                *old(db),
                old(self).table().pay_to_in(*old(db), poster_addr.bytes@),
            ) + available.value() <= u256_max(),
        ensures
            *final(self) == *old(self),
            ({
                let t = old(self).table();
                let q = poster_addr.bytes@;
                let d = t.due_in(*old(db), q);
                let bt = if d > 0 {
                    min_of(d, available.value())
                } else {
                    0
                };
                &&& r.value() == available.value() - bt
                &&& i256_min() <= d <= i256_max()
                &&& db_slots(*final(db)) == if bt > 0 {
                    db_slots(*old(db)).insert(
                        (old(self).account(), t.total_slot()),
                        i256_raw(adjusted_total(t.total_in(*old(db)), d - bt, d)),
                    ).insert((old(self).account(), t.due_slot(q)), i256_raw(d - bt))
                } else {
                    db_slots(*old(db))
                }
                &&& db_balances(*final(db)) == if bt > 0 {
                    moved(db_balances(*old(db)), funds_pool_bytes(), t.pay_to_in(*old(db), q), bt)
                } else {
                    db_balances(*old(db))
                }
            }),
    {
        proof {
            self.lemma_table();
        }
        let ghost db0 = *db;
        let mut available = available;
        let mut poster = match self.batch_poster_table.open_poster(db, poster_addr, false) {
            Ok(st) => st,
            Err(_) => {
                proof {
                    assert(false);
                }
                return available;
            },
        };
        let balance_due = poster.funds_due(db);
        proof {
            lemma_i256_raw(balance_due);
        }
        if balance_due.is_positive() {
            let mut balance_to_transfer = balance_due.to_u256_saturating();
            if available.lt(&balance_to_transfer) {
                balance_to_transfer = available;
            }
            if !balance_to_transfer.is_zero() {
                let addr_to_pay = poster.pay_to(db);
                proof {
                    if addr_to_pay.bytes@ != funds_pool_bytes() {
                        assert(balance_value(db0, addr_to_pay.bytes@) + available.value() <= u256_max());
                    }
                }
                match transfer(db, l1_pricer_funds_pool_address(), addr_to_pay, balance_to_transfer) {
                    Ok(()) => {},
                    Err(_) => {
                        proof {
                            assert(false);
                        }
                    },
                }
                available = crate::word::u256_saturating_sub(available, balance_to_transfer);
                let settled_due = i256_saturating_sub(balance_due, I256::from_u256_saturating(balance_to_transfer));
                proof {
                    lemma_i256_raw(settled_due);
                }
                poster.set_funds_due(db, settled_due);
            }
        }
        available
    }

    /// What each poster is owed in `db`.
    pub open spec fn dues_in(&self, db: InMemoryDB) -> spec_fn(Seq<u8>) -> int {
        |q: Seq<u8>| self.table().due_in(db, q)
    }

    /// Where each poster is paid in `db`.
    pub open spec fn pay_tos_in(&self, db: InMemoryDB) -> spec_fn(Seq<u8>) -> Seq<u8> {
        |q: Seq<u8>| self.table().pay_to_in(db, q)
    }

    /// Settling the posters of `db0` from `avail0` funds, on `db0`'s balances and total.
    pub open spec fn settled_from(&self, db0: InMemoryDB, n: int, avail0: int) -> (int, Map<Seq<u8>, int>, int) {
        settle_posters(
            self.table().posters(db0).take(n),
            self.dues_in(db0),
            self.pay_tos_in(db0),
            avail0,
            db_balances(db0),
            self.table().total_in(db0),
        )
    }

    /// What poster `k` of `db0` gets when settled from `avail0` funds.
    pub open spec fn settled_poster(&self, db0: InMemoryDB, k: int, avail0: int) -> int {
        settled_at(
            self.table().posters(db0),
            self.dues_in(db0),
            self.pay_tos_in(db0),
            avail0,
            db_balances(db0),
            self.table().total_in(db0),
            k,
        )
    }

    /// Whether in `db` the first `i` posters of `db0` are owed what they were
    /// owed less what they got when settled from `avail0` funds, and the
    /// others what they were owed.
    pub open spec fn dues_settled(&self, db0: InMemoryDB, db: InMemoryDB, i: int, avail0: int) -> bool {
        let t = self.table();
        let ps = t.posters(db0);
        &&& forall|k: int| 0 <= k < i ==> #[trigger] t.due_in(db, ps[k]) == t.due_in(db0, ps[k]) - self.settled_poster(db0, k, avail0)
        &&& forall|k: int| i <= k < ps.len() ==> #[trigger] t.due_in(db, ps[k]) == t.due_in(db0, ps[k])
    }

    /// Whether `db` differs from `db0` at most in the table's total and in
    /// what the first `i` posters of `db0` are owed.
    pub open spec fn only_dues_written(&self, db0: InMemoryDB, db: InMemoryDB, i: int) -> bool {
        let t = self.table();
        let ps = t.posters(db0);
        forall|acc: Seq<u8>, s: int|
            !(acc == self.account() && (s == t.total_slot() || exists|k: int| 0 <= k < i && s == t.due_slot(ps[k])))
                ==> #[trigger] slot_value(db, acc, s) == slot_value(db0, acc, s)
    }

    /// Whether `avail` funds can still be paid out of the pool in `db`, to
    /// any of `accounts`.
    pub open spec fn funds_payable(db: InMemoryDB, avail: int, accounts: Set<Seq<u8>>) -> bool {
        &&& avail <= balance_value(db, funds_pool_bytes())
        &&& forall|a: Seq<u8>|
            accounts.contains(a) && a != funds_pool_bytes() ==> #[trigger] balance_value(db, a) + avail <= u256_max()
    }

    /// Whether `db` is `db0` with its first `i` posters settled from
    /// `avail0` funds, `avail` left.
    #[verifier::opaque]
    pub open spec fn settling(&self, db0: InMemoryDB, db: InMemoryDB, i: int, avail: int, avail0: int) -> bool {
        let t = self.table();
        let ps = t.posters(db0);
        &&& 0 <= i <= ps.len()
        &&& t.valid(db)
        &&& t.posters(db) == ps
        &&& 0 <= avail
        &&& avail == self.settled_from(db0, i, avail0).0
        &&& db_balances(db) == self.settled_from(db0, i, avail0).1
        &&& t.total_in(db) == self.settled_from(db0, i, avail0).2
        &&& self.dues_settled(db0, db, i, avail0)
        &&& self.only_dues_written(db0, db, i)
        &&& Self::funds_payable(db, avail, self.payees(db0))
    }

    /// Settling starts with nothing settled.
    proof fn lemma_settling_start(&self, db0: InMemoryDB, avail0: int)
        requires
            0 <= avail0,
            self.inv(),
            self.table().valid(db0),
            Self::funds_payable(db0, avail0, self.payees(db0)),
        ensures
            self.settling(db0, db0, 0, avail0, avail0),
    {
        reveal(L1PricingState::settling);
        assert(self.table().posters(db0).take(0) =~= Seq::<Seq<u8>>::empty());
    }

    /// Where settling stands at poster `i`: what the next poster is owed and
    /// where it is paid are as they were, and it can be paid.
    proof fn lemma_settling_facts(&self, db0: InMemoryDB, db: InMemoryDB, i: int, avail: int, avail0: int)
        requires
            self.inv(),
            self.table().valid(db0),
            self.settling(db0, db, i, avail, avail0),
            i < self.table().posters(db0).len(),
        ensures
            self.table().valid(db),
            self.table().is_poster(db, self.table().posters(db0)[i]),
            self.table().posters(db0)[i].len() == 20,
            self.table().due_in(db, self.table().posters(db0)[i]) == self.table().due_in(db0, self.table().posters(db0)[i]),
            self.table().pay_to_in(db, self.table().posters(db0)[i]) == self.table().pay_to_in(db0, self.table().posters(db0)[i]),
            avail <= balance_value(db, funds_pool_bytes()),
            self.table().pay_to_in(db0, self.table().posters(db0)[i]) != funds_pool_bytes() ==> balance_value(
                db,
                self.table().pay_to_in(db0, self.table().posters(db0)[i]),
            ) + avail <= u256_max(),
    {
        reveal(L1PricingState::settling);
        self.lemma_table();
        let t = self.table();
        let ps = t.posters(db0);
        let q = ps[i];
        t.lemma_posters(db0);
        t.lemma_posters(db);
        assert(t.is_poster(db, q));
        assert(self.payees(db0).contains(t.pay_to_in(db0, q))) by {
            reveal(L1PricingState::payees);
        }
        assert(t.pay_to_in(db, q) == t.pay_to_in(db0, q)) by {
            assert(t.pay_to_slot(q) != t.total_slot());
            assert forall|k: int| 0 <= k < i implies t.pay_to_slot(q) != t.due_slot(ps[k]) by {
                assert(ps[k].len() == 20);
            }
        }
    }

    /// Settling one more poster: what poster `i` gets comes off the funds,
    /// moves from the pool to where it is paid, and settles its amount.
    proof fn lemma_settled_one_more(&self, db0: InMemoryDB, i: int, avail0: int)
        requires
            0 <= i < self.table().posters(db0).len(),
        ensures
            ({
                let t = self.table();
                let q = t.posters(db0)[i];
                let d = t.due_in(db0, q);
                let prev = self.settled_from(db0, i, avail0);
                let bt = self.settled_poster(db0, i, avail0);
                &&& bt == if d > 0 {
                    min_of(d, prev.0)
                } else {
                    0
                }
                &&& self.settled_from(db0, i + 1, avail0) == if bt > 0 {
                    (prev.0 - bt, moved(prev.1, funds_pool_bytes(), t.pay_to_in(db0, q), bt), adjusted_total(prev.2, d - bt, d))
                } else {
                    prev
                }
            }),
    {
        let ps = self.table().posters(db0);
        assert(ps.take(i + 1).drop_last() =~= ps.take(i));
        assert(ps.take(i + 1).last() == ps[i]);
    }

    /// Settling poster `i` moves settling one poster on.
    #[verifier::rlimit(100)]
    #[verifier::spinoff_prover]
    proof fn lemma_settling_step(&self, db0: InMemoryDB, db: InMemoryDB, dbn: InMemoryDB, i: int, avail: int, availn: int, avail0: int)
        requires
            self.inv(),
            self.table().valid(db0),
            self.settling(db0, db, i, avail, avail0),
            i < self.table().posters(db0).len(),
            ({
                let t = self.table();
                let q = t.posters(db0)[i];
                let d = t.due_in(db, q);
                let bt = if d > 0 {
                    min_of(d, avail)
                } else {
                    0
                };
                &&& availn == avail - bt
                &&& i256_min() <= d <= i256_max()
                &&& db_slots(dbn) == if bt > 0 {
                    db_slots(db).insert(
                        (self.account(), t.total_slot()),
                        i256_raw(adjusted_total(t.total_in(db), d - bt, d)),
                    ).insert((self.account(), t.due_slot(q)), i256_raw(d - bt))
                } else {
                    db_slots(db)
                }
                &&& db_balances(dbn) == if bt > 0 {
                    moved(db_balances(db), funds_pool_bytes(), t.pay_to_in(db, q), bt)
                } else {
                    db_balances(db)
                }
            }),
        ensures
            self.settling(db0, dbn, i + 1, availn, avail0),
    {
        assert(0 <= avail) by {
            reveal(L1PricingState::settling);
        }
        self.lemma_settling_facts(db0, db, i, avail, avail0);
        reveal(L1PricingState::settling);
        self.lemma_settled_one_more(db0, i, avail0);
        self.lemma_table();
        let t = self.table();
        let ps = t.posters(db0);
        let q = ps[i];
        let d = t.due_in(db, q);
        assert(d == t.due_in(db0, q));
        assert(self.settled_from(db0, i, avail0).0 == avail);
        let bt = if d > 0 {
            min_of(d, avail)
        } else {
            0
        };
        assert(self.settled_poster(db0, i, avail0) == bt);
        assert(t.due_in(dbn, q) == d - bt);
        assert(t.valid(dbn) && t.posters(dbn) == ps) by {
            assert forall|s: int| t.in_set_footprint(s) implies #[trigger] slot_value(dbn, t.account(), s) == slot_value(
                db,
                t.account(),
                s,
            ) by {
                assert(s != t.total_slot());
                assert(s != t.due_slot(q));
            }
            t.lemma_set_kept(db, dbn);
        }
        self.lemma_step_dues(db0, db, dbn, i, avail0);
        self.lemma_step_frame(db0, db, dbn, i);
        let payees = self.payees(db0);
        assert(Self::funds_payable(db, avail, payees));
        assert(availn == avail - bt);
        assert(0 <= bt <= avail);
        let pool = funds_pool_bytes();
        if bt > 0 {
            let to = t.pay_to_in(db, q);
            if to != pool {
                assert(db_balances(dbn) == db_balances(db).insert(pool, balance_value(db, pool) - bt).insert(
                    to,
                    balance_value(db, to) + bt,
                ));
                assert(balance_value(dbn, pool) == balance_value(db, pool) - bt);
                assert forall|a: Seq<u8>| payees.contains(a) && a != pool implies #[trigger] balance_value(dbn, a) + availn
                    <= u256_max() by {
                    assert(balance_value(db, a) + avail <= u256_max());
                    if a == to {
                        assert(balance_value(dbn, a) == balance_value(db, a) + bt);
                    } else {
                        assert(balance_value(dbn, a) == balance_value(db, a));
                    }
                }
            } else {
                assert(db_balances(dbn) == db_balances(db));
                assert forall|a: Seq<u8>| payees.contains(a) && a != pool implies #[trigger] balance_value(dbn, a) + availn
                    <= u256_max() by {
                    assert(balance_value(db, a) + avail <= u256_max());
                }
            }
        } else {
            assert(db_balances(dbn) == db_balances(db));
            assert forall|a: Seq<u8>| payees.contains(a) && a != pool implies #[trigger] balance_value(dbn, a) + availn
                <= u256_max() by {
                assert(balance_value(db, a) + avail <= u256_max());
            }
        }
        assert(Self::funds_payable(dbn, availn, payees));
    }

    /// Settling poster `i` leaves every poster owed what settling says.
    #[verifier::rlimit(100)]
    #[verifier::spinoff_prover]
    proof fn lemma_step_dues(&self, db0: InMemoryDB, db: InMemoryDB, dbn: InMemoryDB, i: int, avail0: int)
        requires
            self.inv(),
            self.table().valid(db0),
            0 <= i < self.table().posters(db0).len(),
            self.dues_settled(db0, db, i, avail0),
            self.table().due_in(dbn, self.table().posters(db0)[i]) == self.table().due_in(db0, self.table().posters(db0)[i])
                - self.settled_poster(db0, i, avail0),
            forall|acc: Seq<u8>, s: int|
                !(acc == self.account() && (s == self.table().total_slot() || s == self.table().due_slot(
                    self.table().posters(db0)[i],
                ))) ==> #[trigger] slot_value(dbn, acc, s) == slot_value(db, acc, s),
        ensures
            self.dues_settled(db0, dbn, i + 1, avail0),
    {
        self.lemma_table();
        let t = self.table();
        let ps = t.posters(db0);
        let q = ps[i];
        t.lemma_posters(db0);
        assert forall|k: int| 0 <= k < ps.len() && k != i implies #[trigger] t.due_in(dbn, ps[k]) == t.due_in(db, ps[k]) by {
            assert(ps[k] != q);
            assert(ps[k].len() == 20);
            assert(t.due_slot(ps[k]) != t.due_slot(q));
            assert(t.due_slot(ps[k]) != t.total_slot());
            assert(slot_value(dbn, t.account(), t.due_slot(ps[k])) == slot_value(db, t.account(), t.due_slot(ps[k])));
        }
    }

    /// Settling poster `i` writes only the total and what that poster is owed.
    proof fn lemma_step_frame(&self, db0: InMemoryDB, db: InMemoryDB, dbn: InMemoryDB, i: int)
        requires
            0 <= i < self.table().posters(db0).len(),
            self.only_dues_written(db0, db, i),
            forall|acc: Seq<u8>, s: int|
                !(acc == self.account() && (s == self.table().total_slot() || s == self.table().due_slot(
                    self.table().posters(db0)[i],
                ))) ==> #[trigger] slot_value(dbn, acc, s) == slot_value(db, acc, s),
        ensures
            self.only_dues_written(db0, dbn, i + 1),
    {
        let t = self.table();
        let ps = t.posters(db0);
        assert forall|acc: Seq<u8>, s: int|
            !(acc == self.account() && (s == t.total_slot() || exists|k: int| 0 <= k < i + 1 && s == t.due_slot(ps[k])))
                implies #[trigger] slot_value(dbn, acc, s) == slot_value(db0, acc, s) by {
            if acc == self.account() {
                assert(s != t.due_slot(ps[i]));
                assert(!(exists|k: int| 0 <= k < i && s == t.due_slot(ps[k]))) by {
                    if exists|k: int| 0 <= k < i && s == t.due_slot(ps[k]) {
                        let k = choose|k: int| 0 <= k < i && s == t.due_slot(ps[k]);
                        assert(0 <= k < i + 1 && s == t.due_slot(ps[k]));
                    }
                }
            }
            assert(slot_value(db, acc, s) == slot_value(db0, acc, s));
        }
    }

    /// Pays every poster, in stored order, what it is owed as far as
    /// `available` funds of the L1 fees pool go; returns the funds left.
    fn settle_all_posters(&mut self, db: &mut InMemoryDB, available: U256) -> (r: U256)
        where
            B: Clone,
        requires
            old(self).inv(),
            old(self).table().valid(*old(db)),
            Self::funds_payable(*old(db), available.value(), old(self).payees(*old(db))),
        ensures
            *final(self) == *old(self),
            old(self).settling(*old(db), *final(db), old(self).table().posters(*old(db)).len() as int, r.value(), available.value()),
            forall|i: int| 0 <= i <= 12 ==> #[trigger] old(self).field(*final(db), i) == old(self).field(*old(db), i),
    {
        proof {
            self.lemma_table();
        }
        let ghost db0 = *db;
        let ghost s0 = *self;
        let ghost avail0 = available.value();
        proof {
            self.table().lemma_posters(db0);
            self.lemma_settling_start(db0, avail0);
        }
        let all_posters = self.batch_poster_table.all_posters(db, u64::MAX);
        let mut available = available;
        let mut i: usize = 0;
        while i < all_posters.len()
            invariant
                *self == s0,
                s0.inv(),
                s0.table().valid(db0),
                i <= all_posters@.len(),
                all_posters@.len() == s0.table().posters(db0).len(),
                forall|j: int| 0 <= j < all_posters@.len() ==> #[trigger] all_posters@[j].bytes@ == s0.table().posters(db0)[j],
                s0.settling(db0, *db, i as int, available.value(), avail0),
            decreases all_posters@.len() - i,
        {
            let ghost dbi = *db;
            let poster_addr = all_posters[i];
            proof {
                self.lemma_settling_facts(db0, dbi, i as int, available.value(), avail0);
            }
            let ghost ai = available.value();
            available = self.settle_poster(db, poster_addr, available);
            proof {
                self.lemma_settling_step(db0, dbi, *db, i as int, ai, available.value(), avail0);
            }
            i += 1;
        }
        proof {
            reveal(L1PricingState::settling);
            let t = self.table();
            let ps = t.posters(db0);
            t.lemma_posters(db0);
            assert forall|j: int| 0 <= j <= 12 implies #[trigger] self.field(*db, j) == self.field(db0, j) by {
                assert(self.field_slot(j) != t.total_slot());
                assert forall|k: int| 0 <= k < ps.len() implies self.field_slot(j) != t.due_slot(ps[k]) by {
                    assert(ps[k].len() == 20);
                }
            }
        }
        available
    }

    /// Accrues the rewards for `units` units and pays them, as far as they
    /// go, from the pool's share `num / den` of its balance; returns what is
    /// left of that share.
    fn pay_rewards_v1(
        &mut self,
        db: &mut InMemoryDB,
        units: u64,
        num: u64,
        den: u64,
        Ghost(accounts): Ghost<Set<Seq<u8>>>,
    ) -> (available: U256)
        requires
            old(self).inv(),
            old(self).field(*old(db), 3) <= u64_max(),
            0 < den,
            num <= den,
            pool_payable_to(*old(db), old(self).pay_rewards_to_in(*old(db))),
            all_pool_payable(*old(db), accounts),
        ensures
            *final(self) == *old(self),
            ({
                let st = *old(self);
                let owed = rewards_for(units as int, st.field(*old(db), 3));
                let pool0 = balance_value(*old(db), funds_pool_bytes());
                let avail0 = clamp_u256(pool0 * num) / (den as int);
                let paid = min_of(owed, avail0);
                let accrued = clamp_i256(st.funds_due_for_rewards_in(*old(db)) + owed);
                &&& available.value() == avail0 - paid
                &&& 0 <= paid
                &&& db_slots(*final(db)) == db_slots(*old(db)).insert((st.account(), st.field_slot(5)), i256_raw(accrued)).insert(
                    (st.account(), st.field_slot(5)),
                    i256_raw(clamp_i256(accrued - paid)),
                )
                &&& db_balances(*final(db)) == moved(
                    db_balances(*old(db)),
                    funds_pool_bytes(),
                    st.pay_rewards_to_in(*old(db)),
                    paid,
                )
                &&& Self::funds_payable(*final(db), available.value(), accounts)
            }),
    {
        proof {
            self.lemma_table();
            reveal(all_pool_payable);
        }
        let ghost db0 = *db;
        let ghost pool = funds_pool_bytes();
        let mut funds_due_for_rewards = self.funds_due_for_rewards(db);
        let per_unit_reward = self.per_unit_reward(db);
        proof {
            lemma_i256_raw(funds_due_for_rewards);
            assert(0 <= units * per_unit_reward <= u64_max() * u64_max()) by (nonlinear_arith)
                requires
                    units <= u64_max(),
                    per_unit_reward <= u64_max(),
            ;
            assert(per_unit_reward * units == units * per_unit_reward) by (nonlinear_arith);
            reveal(rewards_for);
        }
        let owed = i256_saturating_mul(I256::from_u64(units), I256::from_u64(per_unit_reward));
        funds_due_for_rewards = i256_saturating_add(funds_due_for_rewards, owed);
        self.set_funds_due_for_rewards(db, funds_due_for_rewards);
        let pool_address = l1_pricer_funds_pool_address();
        let pool_balance = read_balance(db, pool_address);
        let available_funds = u256_div(u256_saturating_mul(pool_balance, U256::from_u64(num)), U256::from_u64(den));
        proof {
            let pb = pool_balance.value();
            assert(clamp_u256(pb * num) <= pb * den) by (nonlinear_arith)
                requires
                    0 <= pb,
                    num <= den,
                    0 <= num,
            ;
            assert(clamp_u256(pb * num) / (den as int) <= pb) by (nonlinear_arith)
                requires
                    clamp_u256(pb * num) <= pb * den,
                    0 < den,
                    0 <= clamp_u256(pb * num),
            ;
        }
        let mut payment_for_rewards = u256_saturating_mul(U256::from_u64(per_unit_reward), U256::from_u64(units));
        if available_funds.lt(&payment_for_rewards) {
            payment_for_rewards = available_funds;
        }
        funds_due_for_rewards = i256_saturating_sub(funds_due_for_rewards, I256::from_u256_saturating(payment_for_rewards));
        self.set_funds_due_for_rewards(db, funds_due_for_rewards);
        proof {
            lemma_i256_raw(funds_due_for_rewards);
        }
        let pay_rewards_to = self.pay_rewards_to(db);
        let ghost db1 = *db;
        if !payment_for_rewards.is_zero() {
            proof {
                if pay_rewards_to.bytes@ != pool {
                    assert(balance_value(db0, pay_rewards_to.bytes@) + balance_value(db0, pool) <= u256_max());
                }
            }
            match transfer(db, pool_address, pay_rewards_to, payment_for_rewards) {
                Ok(()) => {},
                Err(_) => {
                    proof {
                        assert(false);
                    }
                },
            }
        }
        let available = crate::word::u256_saturating_sub(available_funds, payment_for_rewards);
        proof {
            let dbn = *db;
            let a = available.value();
            let paid = payment_for_rewards.value();
            let to = pay_rewards_to.bytes@;
            if paid > 0 && to != pool {
                assert(balance_value(dbn, pool) == balance_value(db0, pool) - paid);
                assert forall|x: Seq<u8>| accounts.contains(x) && x != pool implies #[trigger] balance_value(dbn, x) + a
                    <= u256_max() by {
                    assert(pool_payable_to(db0, x));
                    if x == to {
                        assert(balance_value(dbn, x) == balance_value(db0, x) + paid);
                    } else {
                        assert(balance_value(dbn, x) == balance_value(db0, x));
                    }
                }
            } else {
                assert(db_balances(dbn) == db_balances(db0));
                assert forall|x: Seq<u8>| accounts.contains(x) && x != pool implies #[trigger] balance_value(dbn, x) + a
                    <= u256_max() by {
                    assert(pool_payable_to(db0, x));
                }
            }
        }
        available
    }

    /// Records `update_time` as the time of the last update and, where the
    /// update took units, moves the price per unit by the first version's
    /// rule, from the surplus before the update (`old_surplus`) and now.
    fn record_update_v1(&mut self, db: &mut InMemoryDB, update_time: u64, units: u64, old_surplus: I256)
        requires
            old(self).inv(),
            old(self).field(*old(db), 2) <= u64_max(),
        ensures
            *final(self) == *old(self),
            db_balances(*final(db)) == db_balances(*old(db)),
            ({
                let st = *old(self);
                let surplus = surplus_of(
                    balance_value(*old(db), funds_pool_bytes()),
                    st.table().total_in(*old(db)),
                    st.funds_due_for_rewards_in(*old(db)),
                );
                let timed = db_slots(*old(db)).insert((st.account(), st.field_slot(4)), update_time as int);
                db_slots(*final(db)) == if units > 0 {
                    timed.insert(
                        (st.account(), st.field_slot(7)),
                        price_after_change(
                            st.field(*old(db), 7),
                            price_change_v1(
                                surplus,
                                old_surplus.value(),
                                st.field(*old(db), 2),
                                st.field(*old(db), 1),
                                units as int,
                            ),
                        ),
                    )
                } else {
                    timed
                }
            }),
    {
        proof {
            self.lemma_table();
        }
        self.set_last_update_time(db, update_time);
        if units > 0 {
            let total_funds_due = self.batch_poster_table.total_funds_due(db);
            let funds_due_for_rewards = self.funds_due_for_rewards(db);
            let pool_balance = read_balance(db, l1_pricer_funds_pool_address());
            let surplus = i256_saturating_sub(
                I256::from_u256_saturating(pool_balance),
                i256_saturating_add(total_funds_due, funds_due_for_rewards),
            );
            let inertia = self.inertia(db);
            let equil_units = self.equilibration_units(db);
            let price = self.price_per_unit(db);
            let new_price = adjusted_price_v1(price, surplus, old_surplus, inertia, equil_units, units);
            self.set_price_per_unit(db, new_price);
        }
    }

    /// Where the first version's update stands when it starts settling the
    /// posters: the table holds the posters, owed and paid as the update
    /// says, and settling from here is settling as the update says.
    #[verifier::rlimit(100)]
    #[verifier::spinoff_prover]
    proof fn lemma_pre2_settle_start(
        &self,
        db0: InMemoryDB,
        db1: InMemoryDB,
        db2: InMemoryDB,
        db3: InMemoryDB,
        db4: InMemoryDB,
        update_time: int,
        current_time: int,
        p: Seq<u8>,
        wei_spent: int,
        units: int,
        avail4: int,
    )
        requires
            self.inv(),
            self.table().valid(db0),
            p.len() == 20,
            self.poster_opened(db0, db1, p),
            !self.times_invalid_v1(db0, update_time, current_time),
            units == self.units_v1(db0, update_time, current_time),
            db_slots(db2) == db_slots(db1).insert((self.account(), self.field_slot(6)), self.field(db1, 6) - units),
            db_balances(db2) == db_balances(db1),
            crate::batch_poster::db_two_written(
                db2,
                db3,
                self.account(),
                self.table().total_slot(),
                i256_raw(
                    adjusted_total(
                        self.table().total_in(db2),
                        clamp_i256(self.table().due_in(db2, p) + signed_of_word(wei_spent)),
                        self.table().due_in(db2, p),
                    ),
                ),
                self.table().due_slot(p),
                i256_raw(clamp_i256(self.table().due_in(db2, p) + signed_of_word(wei_spent))),
            ),
            ({
                let lut = self.last_update_v1(db0, update_time, current_time);
                let owed = rewards_for(units, self.field(db3, 3));
                let avail0 = clamp_u256(balance_value(db3, funds_pool_bytes()) * (update_time - lut)) / (current_time - lut);
                let paid = min_of(owed, avail0);
                let accrued = clamp_i256(self.funds_due_for_rewards_in(db3) + owed);
                &&& avail4 == avail0 - paid
                &&& db_slots(db4) == db_slots(db3).insert((self.account(), self.field_slot(5)), i256_raw(accrued)).insert(
                    (self.account(), self.field_slot(5)),
                    i256_raw(clamp_i256(accrued - paid)),
                )
                &&& db_balances(db4) == moved(db_balances(db3), funds_pool_bytes(), self.pay_rewards_to_in(db3), paid)
            }),
        ensures
            self.table().valid(db4),
            self.table().is_poster(db4, p),
            self.table().posters(db4) == self.posters_with(db0, p),
            self.settled_from(db4, self.table().posters(db4).len() as int, avail4) == self.settled_v1(
                db0,
                update_time,
                current_time,
                p,
                wei_spent,
            ),
            forall|k: int|
                0 <= k < self.table().posters(db4).len() ==> #[trigger] self.settled_poster(db4, k, avail4)
                    == self.settled_poster_v1(db0, update_time, current_time, p, wei_spent, k),
            forall|k: int|
                0 <= k < self.table().posters(db4).len() ==> #[trigger] self.table().due_in(db4, self.table().posters(db4)[k])
                    == (self.dues_v1(db0, p, wei_spent))(self.table().posters(db4)[k]),
            forall|q: Seq<u8>| q.len() == 20 && q != p ==> #[trigger] self.table().due_in(db4, q) == self.table().due_in(db0, q),
            forall|q: Seq<u8>| q.len() == 20 ==> #[trigger] self.table().pay_to_in(db4, q) == (self.pay_tos_v1(db0, p))(q),
            self.funds_due_for_rewards_in(db4) == self.rewards_due_v1(db0, update_time, current_time),
            forall|i: int| 0 <= i <= 12 && i != 5 && i != 6 ==> #[trigger] self.field(db4, i) == self.field(db0, i),
            self.field(db4, 6) == self.field(db0, 6) - units,
            self.slots_outside_kept(db0, db4),
    {
        self.lemma_table();
        self.lemma_opened(db0, db1, p);
        let t = self.table();
        let sk = self.key();
        let acct = self.account();
        assert(self.field(db1, 3) == self.field(db0, 3));
        assert(self.field(db1, 0) == self.field(db0, 0));
        assert(self.field(db1, 5) == self.field(db0, 5));
        assert(self.field(db1, 6) == self.field(db0, 6));
        assert forall|acc: Seq<u8>, s: int|
            !(acc == acct && (is_field_slot(sk, s) || s == t.total_slot() || s == t.due_slot(p))) implies #[trigger] slot_value(
            db4,
            acc,
            s,
        ) == slot_value(db1, acc, s) by {
            if acc == acct {
                assert(s != slot_of(sk, 5));
                assert(s != slot_of(sk, 6));
            }
        }
        self.lemma_entry_written(db1, db4, p);
        t.lemma_posters(db1);
        let ps = t.posters(db4);
        assert(ps == self.posters_with(db0, p));
        assert(t.due_in(db2, p) == self.due_before(db0, p));
        assert(t.total_in(db2) == t.total_in(db0));
        assert(t.due_in(db4, p) == self.due_credited_v1(db0, p, wei_spent));
        assert(t.total_in(db4) == self.total_credited_v1(db0, p, wei_spent));
        assert(balance_value(db3, funds_pool_bytes()) == balance_value(db0, funds_pool_bytes()));
        assert(self.pay_rewards_to_in(db3) == self.pay_rewards_to_in(db0));
        assert(self.funds_due_for_rewards_in(db3) == self.funds_due_for_rewards_in(db0));
        assert(self.field(db3, 3) == self.field(db0, 3));
        assert(avail4 == self.funds_v1(db0, update_time, current_time) - self.rewards_paid_v1(db0, update_time, current_time));
        assert(db_balances(db4) == self.balances_rewarded_v1(db0, update_time, current_time));
        assert forall|q: Seq<u8>| q.len() == 20 implies #[trigger] t.pay_to_in(db4, q) == (self.pay_tos_v1(db0, p))(q) by {
            if q != p {
                assert(t.due_in(db1, q) == t.due_in(db0, q));
                assert(t.pay_to_in(db1, q) == t.pay_to_in(db0, q));
            }
        }
        assert forall|q: Seq<u8>| q.len() == 20 && q != p implies #[trigger] t.due_in(db4, q) == t.due_in(db0, q) by {
            assert(t.due_in(db1, q) == t.due_in(db0, q));
        }
        assert forall|k: int| 0 <= k < ps.len() implies (self.dues_in(db4))(#[trigger] ps[k]) == (self.dues_v1(
            db0,
            p,
            wei_spent,
        ))(ps[k]) && (self.pay_tos_in(db4))(ps[k]) == (self.pay_tos_v1(db0, p))(ps[k]) by {
            assert(ps[k].len() == 20);
            if ps[k] != p {
                assert(t.due_in(db4, ps[k]) == t.due_in(db0, ps[k]));
            }
            assert(t.pay_to_in(db4, ps[k]) == (self.pay_tos_v1(db0, p))(ps[k]));
        }
        assert(ps.take(ps.len() as int) =~= ps);
        lemma_settle_congruent(
            ps,
            self.dues_in(db4),
            self.dues_v1(db0, p, wei_spent),
            self.pay_tos_in(db4),
            self.pay_tos_v1(db0, p),
            avail4,
            db_balances(db4),
            t.total_in(db4),
        );
        assert forall|k: int| 0 <= k < ps.len() implies #[trigger] t.due_in(db4, ps[k]) == (self.dues_v1(
            db0,
            p,
            wei_spent,
        ))(ps[k]) by {
            assert((self.dues_in(db4))(ps[k]) == t.due_in(db4, ps[k]));
        }
        assert forall|i: int| 0 <= i <= 12 && i != 5 && i != 6 implies #[trigger] self.field(db4, i) == self.field(db0, i) by {
            assert(self.field(db1, i) == self.field(db0, i));
            assert(slot_of(sk, i) != slot_of(sk, 5));
            assert(slot_of(sk, i) != slot_of(sk, 6));
        }
        assert(self.funds_due_for_rewards_in(db4) == self.rewards_due_v1(db0, update_time, current_time));
        assert forall|acc: Seq<u8>, s: int| !(acc == acct && self.in_footprint(s)) implies #[trigger] slot_value(db4, acc, s)
            == slot_value(db0, acc, s) by {
            assert(slot_value(db1, acc, s) == slot_value(db0, acc, s));
        }
    }

    /// What the first version's update leaves of the table, from what
    /// settling left and the fields written after it.
    #[verifier::rlimit(100)]
    #[verifier::spinoff_prover]
    proof fn lemma_pre2_table(
        &self,
        db0: InMemoryDB,
        db4: InMemoryDB,
        db5: InMemoryDB,
        dbf: InMemoryDB,
        update_time: int,
        current_time: int,
        p: Seq<u8>,
        wei_spent: int,
        avail4: int,
        avail5: int,
    )
        requires
            self.inv(),
            self.table().valid(db0),
            p.len() == 20,
            self.table().valid(db4),
            self.table().is_poster(db4, p),
            self.table().posters(db4) == self.posters_with(db0, p),
            self.settled_from(db4, self.table().posters(db4).len() as int, avail4) == self.settled_v1(
                db0,
                update_time,
                current_time,
                p,
                wei_spent,
            ),
            forall|k: int|
                0 <= k < self.table().posters(db4).len() ==> #[trigger] self.settled_poster(db4, k, avail4)
                    == self.settled_poster_v1(db0, update_time, current_time, p, wei_spent, k),
            forall|k: int|
                0 <= k < self.table().posters(db4).len() ==> #[trigger] self.table().due_in(db4, self.table().posters(db4)[k])
                    == (self.dues_v1(db0, p, wei_spent))(self.table().posters(db4)[k]),
            forall|q: Seq<u8>| q.len() == 20 && q != p ==> #[trigger] self.table().due_in(db4, q) == self.table().due_in(db0, q),
            forall|q: Seq<u8>| q.len() == 20 ==> #[trigger] self.table().pay_to_in(db4, q) == (self.pay_tos_v1(db0, p))(q),
            self.settling(db4, db5, self.table().posters(db4).len() as int, avail5, avail4),
            forall|acc: Seq<u8>, s: int|
                !(acc == self.account() && is_field_slot(self.key(), s)) ==> #[trigger] slot_value(dbf, acc, s) == slot_value(
                    db5,
                    acc,
                    s,
                ),
        ensures
            ({
                let t = self.table();
                let ps = self.posters_with(db0, p);
                let dues = self.dues_v1(db0, p, wei_spent);
                &&& t.valid(dbf)
                &&& t.posters(dbf) == ps
                &&& forall|k: int|
                    0 <= k < ps.len() ==> #[trigger] t.due_in(dbf, ps[k]) == dues(ps[k]) - self.settled_poster_v1(
                        db0,
                        update_time,
                        current_time,
                        p,
                        wei_spent,
                        k,
                    )
                &&& forall|q: Seq<u8>| q.len() == 20 && !ps.contains(q) ==> #[trigger] t.due_in(dbf, q) == t.due_in(db0, q)
                &&& forall|q: Seq<u8>| q.len() == 20 ==> #[trigger] t.pay_to_in(dbf, q) == (self.pay_tos_v1(db0, p))(q)
                &&& t.total_in(dbf) == self.settled_v1(db0, update_time, current_time, p, wei_spent).2
                &&& db_balances(db5) == self.settled_v1(db0, update_time, current_time, p, wei_spent).1
                &&& forall|acc: Seq<u8>, s: int|
                    !(acc == self.account() && (s == t.total_slot() || exists|k: int| 0 <= k < ps.len() && s == t.due_slot(ps[k])))
                        ==> #[trigger] slot_value(db5, acc, s) == slot_value(db4, acc, s)
            }),
    {
        reveal(L1PricingState::settling);
        self.lemma_table();
        let t = self.table();
        let sk = self.key();
        let ps = t.posters(db4);
        let n = ps.len() as int;
        t.lemma_posters(db4);
        assert forall|s: int| t.in_set_footprint(s) implies #[trigger] slot_value(dbf, t.account(), s) == slot_value(
            db5,
            t.account(),
            s,
        ) by {
            if is_field_slot(sk, s) {
                let i = choose|i: int| 0 <= i <= 12 && s == slot_of(sk, i);
                assert(!t.in_footprint(slot_of(sk, i)));
            }
        }
        t.lemma_set_kept(db5, dbf);
        assert forall|q: Seq<u8>| q.len() == 20 implies #[trigger] t.due_in(dbf, q) == t.due_in(db5, q)
            && t.pay_to_in(dbf, q) == t.pay_to_in(db5, q) by {
            assert(!is_field_slot(sk, t.due_slot(q))) by {
                if is_field_slot(sk, t.due_slot(q)) {
                    let i = choose|i: int| 0 <= i <= 12 && t.due_slot(q) == slot_of(sk, i);
                    assert(self.field_slot(i) != t.due_slot(q));
                }
            }
            assert(!is_field_slot(sk, t.pay_to_slot(q))) by {
                if is_field_slot(sk, t.pay_to_slot(q)) {
                    let i = choose|i: int| 0 <= i <= 12 && t.pay_to_slot(q) == slot_of(sk, i);
                    assert(self.field_slot(i) != t.pay_to_slot(q));
                }
            }
        }
        assert(t.total_in(dbf) == t.total_in(db5)) by {
            assert(!is_field_slot(sk, t.total_slot())) by {
                if is_field_slot(sk, t.total_slot()) {
                    let i = choose|i: int| 0 <= i <= 12 && t.total_slot() == slot_of(sk, i);
                    assert(self.field_slot(i) != t.total_slot());
                }
            }
        }
        assert forall|q: Seq<u8>| q.len() == 20 implies #[trigger] t.pay_to_in(db5, q) == t.pay_to_in(db4, q) by {
            assert(t.pay_to_slot(q) != t.total_slot());
            assert forall|k: int| 0 <= k < n implies t.pay_to_slot(q) != t.due_slot(ps[k]) by {
                assert(ps[k].len() == 20);
            }
        }
        assert(ps.contains(p));
        assert forall|q: Seq<u8>| q.len() == 20 && !ps.contains(q) implies #[trigger] t.due_in(dbf, q) == t.due_in(db0, q) by {
            assert(t.due_slot(q) != t.total_slot());
            assert forall|k: int| 0 <= k < n implies t.due_slot(q) != t.due_slot(ps[k]) by {
                assert(ps[k].len() == 20);
                assert(ps[k] != q);
            }
            assert(t.due_in(db4, q) == t.due_in(db0, q));
        }
        assert forall|k: int| 0 <= k < n implies #[trigger] t.due_in(dbf, ps[k]) == (self.dues_v1(db0, p, wei_spent))(ps[k])
            - self.settled_poster_v1(db0, update_time, current_time, p, wei_spent, k) by {
            assert(ps[k].len() == 20);
            assert(t.due_in(db5, ps[k]) == t.due_in(db4, ps[k]) - self.settled_poster(db4, k, avail4));
        }
        assert(t.valid(dbf));
        assert(t.posters(dbf) == ps);
        assert(t.total_in(dbf) == self.settled_v1(db0, update_time, current_time, p, wei_spent).2);
        assert(db_balances(db5) == self.settled_v1(db0, update_time, current_time, p, wei_spent).1);
        assert(self.only_dues_written(db4, db5, n));
        assert forall|q: Seq<u8>| q.len() == 20 implies #[trigger] t.pay_to_in(dbf, q) == (self.pay_tos_v1(db0, p))(q) by {
            assert(t.due_in(dbf, q) == t.due_in(db5, q));
            assert(t.pay_to_in(db5, q) == t.pay_to_in(db4, q));
        }
    }

    /// Puts together what the steps of the first version's update wrote:
    /// the update as a whole.
    #[verifier::rlimit(100)]
    #[verifier::spinoff_prover]
    proof fn lemma_pre2_composed(
        &self,
        db0: InMemoryDB,
        db1: InMemoryDB,
        db2: InMemoryDB,
        db3: InMemoryDB,
        db4: InMemoryDB,
        db5: InMemoryDB,
        dbf: InMemoryDB,
        update_time: int,
        current_time: int,
        p: Seq<u8>,
        wei_spent: int,
        units: int,
        old_surplus: int,
        avail4: int,
        avail5: int,
    )
        requires
            self.inv(),
            self.table().valid(db0),
            p.len() == 20,
            self.poster_opened(db0, db1, p),
            !self.times_invalid_v1(db0, update_time, current_time),
            units == self.units_v1(db0, update_time, current_time),
            old_surplus == surplus_of(
                balance_value(db1, funds_pool_bytes()),
                self.table().total_in(db1),
                self.funds_due_for_rewards_in(db1),
            ),
            db_slots(db2) == db_slots(db1).insert((self.account(), self.field_slot(6)), self.field(db1, 6) - units),
            db_balances(db2) == db_balances(db1),
            crate::batch_poster::db_two_written(
                db2,
                db3,
                self.account(),
                self.table().total_slot(),
                i256_raw(
                    adjusted_total(
                        self.table().total_in(db2),
                        clamp_i256(self.table().due_in(db2, p) + signed_of_word(wei_spent)),
                        self.table().due_in(db2, p),
                    ),
                ),
                self.table().due_slot(p),
                i256_raw(clamp_i256(self.table().due_in(db2, p) + signed_of_word(wei_spent))),
            ),
            ({
                let lut = self.last_update_v1(db0, update_time, current_time);
                let owed = rewards_for(units, self.field(db3, 3));
                let avail0 = clamp_u256(balance_value(db3, funds_pool_bytes()) * (update_time - lut)) / (current_time - lut);
                let paid = min_of(owed, avail0);
                let accrued = clamp_i256(self.funds_due_for_rewards_in(db3) + owed);
                &&& avail4 == avail0 - paid
                &&& db_slots(db4) == db_slots(db3).insert((self.account(), self.field_slot(5)), i256_raw(accrued)).insert(
                    (self.account(), self.field_slot(5)),
                    i256_raw(clamp_i256(accrued - paid)),
                )
                &&& db_balances(db4) == moved(db_balances(db3), funds_pool_bytes(), self.pay_rewards_to_in(db3), paid)
            }),
            self.settling(db4, db5, self.table().posters(db4).len() as int, avail5, avail4),
            ({
                let surplus = surplus_of(
                    balance_value(db5, funds_pool_bytes()),
                    self.table().total_in(db5),
                    self.funds_due_for_rewards_in(db5),
                );
                let timed = db_slots(db5).insert((self.account(), self.field_slot(4)), update_time);
                db_slots(dbf) == if units > 0 {
                    timed.insert(
                        (self.account(), self.field_slot(7)),
                        price_after_change(
                            self.field(db5, 7),
                            price_change_v1(surplus, old_surplus, self.field(db5, 2), self.field(db5, 1), units),
                        ),
                    )
                } else {
                    timed
                }
            }),
            db_balances(dbf) == db_balances(db5),
        ensures
            self.spending_applied_pre2(db0, dbf, update_time, current_time, p, wei_spent),
    {
        self.lemma_pre2_settle_start(db0, db1, db2, db3, db4, update_time, current_time, p, wei_spent, units, avail4);
        self.lemma_table();
        self.lemma_opened(db0, db1, p);
        let t = self.table();
        let sk = self.key();
        let acct = self.account();
        let ps = t.posters(db4);
        let n = ps.len() as int;
        let res = self.settled_v1(db0, update_time, current_time, p, wei_spent);
        reveal(L1PricingState::settling);
        assert(self.settled_from(db4, n, avail4) == res);
        assert forall|acc: Seq<u8>, s: int|
            !(acc == acct && is_field_slot(sk, s)) implies #[trigger] slot_value(dbf, acc, s) == slot_value(db5, acc, s) by {
            if acc == acct {
                assert(s != slot_of(sk, 4));
                assert(s != slot_of(sk, 7));
            }
        }
        self.lemma_pre2_table(db0, db4, db5, dbf, update_time, current_time, p, wei_spent, avail4, avail5);
        // The fields.
        t.lemma_posters(db4);
        assert forall|i: int| 0 <= i <= 12 implies #[trigger] self.field(db5, i) == self.field(db4, i) by {
            assert(self.field_slot(i) != t.total_slot());
            assert forall|k: int| 0 <= k < n implies self.field_slot(i) != t.due_slot(ps[k]) by {
                assert(ps[k].len() == 20);
            }
        }
        assert forall|i: int| 0 <= i <= 12 && i != 4 && i != 5 && i != 6 && i != 7 implies #[trigger] self.field(db5, i)
            == self.field(db0, i) by {
            assert(self.field(db4, i) == self.field(db0, i));
            assert(self.field(db5, i) == self.field(db4, i));
        }
        assert(self.field(db5, 5) == self.field(db4, 5));
        assert(self.field(db5, 6) == self.field(db4, 6));
        assert(self.field(db5, 7) == self.field(db0, 7)) by {
            assert(self.field(db4, 7) == self.field(db0, 7));
            assert(self.field(db5, 7) == self.field(db4, 7));
        }
        assert(self.funds_due_for_rewards_in(db5) == self.rewards_due_v1(db0, update_time, current_time));
        assert(old_surplus == surplus_of(
            balance_value(db0, funds_pool_bytes()),
            t.total_in(db0),
            self.funds_due_for_rewards_in(db0),
        )) by {
            assert(self.field(db1, 5) == self.field(db0, 5));
        }
        let expected = self.fields_after_v1(db0, update_time, current_time, p, wei_spent);
        assert forall|i: int| 0 <= i < 13 implies #[trigger] self.fields(dbf)[i] == expected[i] by {
            if i != 4 && i != 5 && i != 6 && i != 7 {
                assert(self.field(db5, i) == self.field(db0, i));
            }
        }
        assert(self.fields(dbf) =~= expected);
        // Nothing outside the state changed.
        assert forall|acc: Seq<u8>, s: int| !(acc == acct && self.in_footprint(s)) implies #[trigger] slot_value(dbf, acc, s)
            == slot_value(db0, acc, s) by {
            if acc == acct {
                assert(s != t.total_slot());
                assert forall|k: int| 0 <= k < n implies s != t.due_slot(ps[k]) by {
                    assert(ps[k].len() == 20);
                }
            }
            assert(slot_value(db4, acc, s) == slot_value(db0, acc, s));
        }
    }

    /// The first version's spending update: as later versions, but the
    /// rewards and all posters (in stored order, not only the one that
    /// spent) are paid from the pool's share of its balance for the time the
    /// update covers; out-of-order times make it do nothing beyond opening
    /// the poster; the price follows the first version's rule and the
    /// surplus is not recorded.
    #[verifier::rlimit(100)]
    #[verifier::spinoff_prover]
    pub fn pre_version2_update_for_batch_poster_spending(
        &mut self,
        db: &mut InMemoryDB,
        update_time: u64,
        current_time: u64,
        batch_poster: Address,
        wei_spent: U256,
    ) -> (r: Result<(), Infallible>)
        where
            B: Clone,
        requires
            old(self).inv(),
            old(self).table().valid(*old(db)),
            old(self).table().has_room(*old(db)),
            old(self).field(*old(db), 2) <= u64_max(),
            old(self).field(*old(db), 3) <= u64_max(),
            old(self).field(*old(db), 4) <= u64_max(),
            old(self).field(*old(db), 6) <= u64_max(),
            old(self).update_payable(*old(db), 1, batch_poster.bytes@),
        ensures
            *final(self) == *old(self),
            old(self).pre2_outcome(
                *old(db),
                *final(db),
                r,
                update_time as int,
                current_time as int,
                batch_poster.bytes@,
                wei_spent.value(),
            ),
            r is Ok,
            old(self).times_invalid_v1(*old(db), update_time as int, current_time as int) ==> old(self).poster_opened(
                *old(db),
                *final(db),
                batch_poster.bytes@,
            ),
            !old(self).times_invalid_v1(*old(db), update_time as int, current_time as int)
                ==> old(self).spending_applied_pre2(
                *old(db),
                *final(db),
                update_time as int,
                current_time as int,
                batch_poster.bytes@,
                wei_spent.value(),
            ),
    {
        let ghost db0 = *db;
        let ghost p = batch_poster.bytes@;
        let ghost acct = self.account();
        let ghost sk = self.key();
        proof {
            self.lemma_table();
        }
        let mut poster_state = match self.batch_poster_table.open_poster(db, batch_poster, true) {
            Ok(st) => st,
            Err(_) => {
                proof {
                    assert(false);
                }
                return Ok(());
            },
        };
        let ghost db1 = *db;
        proof {
            self.lemma_opened(db0, db1, p);
            assert(forall|i: int| 0 <= i <= 12 ==> #[trigger] slot_value(db1, acct, slot_of(sk, i)) == slot_value(db0, acct, slot_of(sk, i))) by {
                assert forall|i: int| 0 <= i <= 12 implies #[trigger] slot_value(db1, acct, slot_of(sk, i)) == slot_value(
                    db0,
                    acct,
                    slot_of(sk, i),
                ) by {
                    assert(self.field(db1, i) == self.field(db0, i));
                }
            }
        }
        let total_funds_due = self.batch_poster_table.total_funds_due(db);
        let funds_due_for_rewards = self.funds_due_for_rewards(db);
        let pool_balance = read_balance(db, l1_pricer_funds_pool_address());
        let old_surplus = i256_saturating_sub(
            I256::from_u256_saturating(pool_balance),
            i256_saturating_add(total_funds_due, funds_due_for_rewards),
        );
        let mut last_update_time = self.last_update_time(db);
        if last_update_time == 0 && current_time > 0 {
            last_update_time = if update_time > 0 {
                update_time - 1
            } else {
                u64::MAX
            };
        }
        if update_time >= current_time || update_time < last_update_time {
            return Ok(());
        }
        let (allocation_numerator, allocation_denominator) = allocation_fraction(
            last_update_time,
            update_time,
            current_time,
        );
        proof {
            assert(self.field(db1, 4) == self.field(db0, 4));
            assert(last_update_time == self.last_update_v1(db0, update_time as int, current_time as int));
            assert(!self.times_invalid_v1(db0, update_time as int, current_time as int));
            assert(allocation_numerator == update_time - last_update_time);
            assert(allocation_denominator == current_time - last_update_time);
        }
        let units_since_update = self.units_since_update(db);
        let units_allocated = units_to_allocate_wrapping(units_since_update, allocation_numerator, allocation_denominator);
        proof {
            assert(self.field(db1, 6) == self.field(db0, 6));
            assert(units_allocated == self.units_v1(db0, update_time as int, current_time as int));
        }
        self.set_units_since_update(db, units_since_update - units_allocated);
        let ghost db2 = *db;
        let due_to_poster = poster_state.funds_due(db);
        proof {
            lemma_i256_raw(due_to_poster);
        }
        let due_credited = i256_saturating_add(due_to_poster, I256::from_u256_saturating(wei_spent));
        poster_state.set_funds_due(db, due_credited);
        proof {
            lemma_i256_raw(due_credited);
        }
        let ghost db3 = *db;
        proof {
            assert(self.field(db3, 3) == self.field(db1, 3));
            assert(self.field(db3, 2) == self.field(db1, 2));
            assert(db_balances(db3) == db_balances(db0));
            assert(self.field(db3, 0) == self.field(db1, 0));
            self.lemma_opened_payable(db0, db1, db3, p);
        }
        let available = self.pay_rewards_v1(
            db,
            units_allocated,
            allocation_numerator,
            allocation_denominator,
            Ghost(self.payees(db1)),
        );
        let ghost db4 = *db;
        let ghost avail4 = available.value();
        proof {
            assert(self.table().valid(db4) && Self::funds_payable(db4, avail4, self.payees(db4))) by {
                assert forall|acc: Seq<u8>, s: int|
                    !(acc == acct && (is_field_slot(sk, s) || s == self.table().total_slot() || s == self.table().due_slot(
                        p,
                    ))) implies #[trigger] slot_value(db4, acc, s) == slot_value(db1, acc, s) by {
                    if acc == acct {
                        assert(s != slot_of(sk, 5));
                        assert(s != slot_of(sk, 6));
                    }
                }
                self.lemma_entry_written(db1, db4, p);
                self.lemma_payees_kept(db1, db4, p);
            }
        }
        let available = self.settle_all_posters(db, available);
        let ghost db5 = *db;
        proof {
            assert(self.field(db5, 2) == self.field(db4, 2));
            assert(self.field(db4, 2) == self.field(db0, 2));
        }
        self.record_update_v1(db, update_time, units_allocated, old_surplus);
        proof {
            self.lemma_pre2_composed(
                db0,
                db1,
                db2,
                db3,
                db4,
                db5,
                *db,
                update_time as int,
                current_time as int,
                p,
                wei_spent.value(),
                units_allocated as int,
                old_surplus.value(),
                avail4,
                available.value(),
            );
        }
        Ok(())
    }

    /// Updates the pricing for a payment of `wei_spent` by `batch_poster`
    /// reported at `update_time` and processed at `current_time`. The poster
    /// is opened (added where it is new); the times must be in order, or
    /// `InvalidTime` is returned with nothing else changed. Then the share
    /// of units since the last update that the update covers is taken; the
    /// poster is credited what it spent (capped from version 3 on, where a
    /// cap is set); rewards are accrued and paid from the fees available as
    /// far as they go, then the poster from what is left; the time is
    /// recorded and, where units were taken, the price moves toward paying
    /// off what is owed.
    #[verifier::rlimit(100)]
    #[verifier::spinoff_prover]
    pub fn update_for_batch_poster_spending(
        &mut self,
        db: &mut InMemoryDB,
        arbos_version: u64,
        update_time: u64,
        current_time: u64,
        batch_poster: Address,
        wei_spent: U256,
        l1_basefee: U256,
    ) -> (r: Result<(), UpdateSpendingError<Infallible>>)
        where
            B: Clone,
        requires
            old(self).inv(),
            old(self).table().valid(*old(db)),
            old(self).table().has_room(*old(db)),
            old(self).field(*old(db), 2) <= u64_max(),
            old(self).field(*old(db), 3) <= u64_max(),
            old(self).field(*old(db), 4) <= u64_max(),
            old(self).field(*old(db), 6) <= u64_max(),
            arbos_version >= ARBOS_VERSION_3 ==> old(self).field(*old(db), 10) <= u64_max(),
            arbos_version >= ARBOS_VERSION_10 ==> old(self).v10_payments_fit(
                *old(db),
                arbos_version as int,
                update_time as int,
                current_time as int,
                batch_poster.bytes@,
                wei_spent.value(),
                l1_basefee.value(),
            ),
            old(self).update_payable(*old(db), arbos_version as int, batch_poster.bytes@),
        ensures
            *final(self) == *old(self),
            old(self).update_outcome(
                *old(db),
                *final(db),
                r,
                arbos_version as int,
                update_time as int,
                current_time as int,
                batch_poster.bytes@,
                wei_spent.value(),
                l1_basefee.value(),
            ),
    {
        if arbos_version < ARBOS_VERSION_10 {
            return self.pre_version10_update_for_batch_poster_spending(
                db,
                arbos_version,
                update_time,
                current_time,
                batch_poster,
                wei_spent,
                l1_basefee,
            );
        }
        let ghost db0 = *db;
        let ghost p = batch_poster.bytes@;
        let ghost acct = self.account();
        let ghost sk = self.key();
        proof {
            self.lemma_table();
        }
        let mut poster_state = match self.batch_poster_table.open_poster(db, batch_poster, true) {
            Ok(st) => st,
            Err(OpenPosterResult::Db(e)) => {
                return Err(UpdateSpendingError::Db(e));
            },
            Err(OpenPosterResult::Semantic(_)) => {
                proof {
                    assert(false);
                }
                return Err(UpdateSpendingError::InvalidTime);
            },
        };
        let ghost db1 = *db;
        let ghost t = self.table();
        proof {
            self.lemma_opened(db0, db1, p);
            assert(forall|i: int| 0 <= i <= 12 ==> #[trigger] slot_value(db1, acct, slot_of(sk, i)) == slot_value(db0, acct, slot_of(sk, i))) by {
                assert forall|i: int| 0 <= i <= 12 implies #[trigger] slot_value(db1, acct, slot_of(sk, i)) == slot_value(
                    db0,
                    acct,
                    slot_of(sk, i),
                ) by {
                    assert(self.field(db1, i) == self.field(db0, i));
                }
            }
        }
        let mut last_update_time = self.last_update_time(db);
        if last_update_time == 0 && update_time > 0 {
            last_update_time = update_time - 1;
        }
        if update_time > current_time || update_time < last_update_time {
            return Err(UpdateSpendingError::InvalidTime);
        }
        let (allocation_numerator, allocation_denominator) = allocation_fraction(
            last_update_time,
            update_time,
            current_time,
        );
        let units_since_update = self.units_since_update(db);
        let units_allocated = units_to_allocate(units_since_update, allocation_numerator, allocation_denominator);
        self.set_units_since_update(db, units_since_update - units_allocated);
        let mut wei = wei_spent;
        proof {
            assert(self.field(*db, 10) == self.field(db1, 10));
        }
        if arbos_version >= ARBOS_VERSION_3 {
            let amortized_cost_cap_bips = self.amortized_cost_cap_bips(db);
            wei = cap_spending(wei_spent, l1_basefee, units_allocated, amortized_cost_cap_bips);
        }
        let ghost db2 = *db;
        proof {
            assert(self.field(db2, 3) == self.field(db1, 3));
            assert(self.field(db2, 11) == self.field(db1, 11));
            assert(self.field(db2, 2) == self.field(db1, 2));
            assert(db_balances(db2) == db_balances(db0));
            self.lemma_payable_after_units(db0, db1, db2, arbos_version as int, p, units_since_update - units_allocated);
            self.lemma_v10_fit_at_credit(
                db0,
                db1,
                db2,
                arbos_version as int,
                update_time as int,
                current_time as int,
                p,
                wei_spent.value(),
                l1_basefee.value(),
                units_allocated as int,
                wei.value(),
            );
        }
        let fees = self.credit_and_pay(&mut poster_state, db, wei, units_allocated, Ghost(p));
        let ghost db3 = *db;
        proof {
            assert(self.field(db3, 2) == self.field(db2, 2));
        }
        self.record_update(db, fees, arbos_version, update_time, units_allocated);
        proof {
            self.lemma_v10_composed(
                db0,
                db1,
                db2,
                db3,
                *db,
                arbos_version as int,
                update_time as int,
                current_time as int,
                p,
                wei_spent.value(),
                l1_basefee.value(),
                units_allocated as int,
                wei.value(),
            );
        }
        Ok(())
    }
}

/// The L1 pricing state kept in the space `sto`: its fields at offsets 0 to
/// 12, its batch posters table in child space `[0]`.
pub fn open_l1_pricing_state<B: Burner + Clone>(sto: &Storage<B>, arbos_version: u64) -> (r: L1PricingState<B>)
    ensures
        r.account() == sto.account.bytes@,
        r.key() == sto.storage_key@,
        r.version() == arbos_version,
        l1_keys_no_collision(sto.storage_key@) ==> r.inv(),
{
    let id: [u8; 1] = [0u8];
    assert(id@ =~= seq![0u8]);
    let table = BatchPostersTable::open(&sto.open_cached_sub_storage(&id));
    L1PricingState {
        batch_poster_table: table,
        pay_rewards_to: sto.open_storage_backed_address(PAY_REWARDS_TO_OFFSET),
        equilibration_units: sto.open_storage_backed_big_uint(EQUILIBRATION_UNITS_OFFSET),
        inertia: sto.open_storage_backed_uint64(INERTIA_OFFSET),
        per_unit_reward: sto.open_storage_backed_uint64(PER_UNIT_REWARD_OFFSET),
        last_update_time: sto.open_storage_backed_uint64(LAST_UPDATE_TIME_OFFSET),
        funds_due_for_rewards: sto.open_storage_backed_big_int(FUNDS_DUE_FOR_REWARDS_OFFSET),
        units_since_update: sto.open_storage_backed_uint64(UNITS_SINCE_OFFSET),
        price_per_unit: sto.open_storage_backed_big_uint(PRICE_PER_UNIT_OFFSET),
        last_surplus: sto.open_storage_backed_big_int(LAST_SURPLUS_OFFSET),
        per_batch_gas_cost: sto.open_storage_backed_int64(PER_BATCH_GAS_COST_OFFSET),
        amortized_cost_cap_bips: sto.open_storage_backed_uint64(AMORTIZED_COST_CAP_BIPS_OFFSET),
        l1_fees_available: sto.open_storage_backed_big_uint(L1_FEES_AVAILABLE_OFFSET),
        gas_floor_per_token: sto.open_storage_backed_uint64(GAS_FLOOR_PER_TOKEN_OFFSET),
        arbos_version,
        storage_key: Ghost(sto.storage_key@),
    }
}

} // verus!
