//! A multi-gas constraint: a target (offset 0), an adjustment window
//! (offset 1, a `u32`), a backlog (offset 2), the largest resource weight
//! (offset 3) and the weight of each resource kind (offsets 4 to 11).
use vstd::prelude::*;

use std::collections::HashMap;

use revm::database::InMemoryDB;

use crate::burn::Burner;
use crate::multigas::{u64_max, ResourceKind};
use crate::statedb::{db_balances, db_slots, slot_value};
use crate::storage::{slot_of, Storage, StorageBackedUint32, StorageBackedUint64};

verus! {

broadcast use vstd::std_specs::hash::group_hash_axioms;

/// The offset of the target.
pub const TARGET_OFFSET: u64 = 0;

/// The offset of the adjustment window.
pub const ADJUSTMENT_WINDOW_OFFSET: u64 = 1;

/// The offset of the backlog.
pub const BACKLOG_OFFSET: u64 = 2;

/// The offset of the largest weight.
pub const MAX_WEIGHT_OFFSET: u64 = 3;

/// The offset of the weight of the resource kind with id 0.
pub const WEIGHTED_RESOURCES_BASE_OFFSET: u64 = 4;

/// The weight that `weights` gives the kind with id `i`: zero where it has none.
pub open spec fn weight_of(weights: Map<u8, u64>, i: int) -> int {
    if weights.contains_key(i as u8) {
        weights[i as u8] as int
    } else {
        0
    }
}

/// The largest weight among the kinds with ids below `n` (zero for none).
pub open spec fn max_weight_of(weights: Map<u8, u64>, n: nat) -> int
    decreases n,
{
    if n == 0 {
        0
    } else {
        let m = max_weight_of(weights, (n - 1) as nat);
        let w = weight_of(weights, n - 1);
        if w > m {
            w
        } else {
            m
        }
    }
}

/// The slots after the weights of the kinds with ids below `n` are written,
/// in order of id, at the weight offsets of the space `key` of `account`.
pub open spec fn weights_written(
    slots: Map<(Seq<u8>, int), int>,
    account: Seq<u8>,
    key: Seq<u8>,
    weights: Map<u8, u64>,
    n: nat,
) -> Map<(Seq<u8>, int), int>
    decreases n,
{
    if n == 0 {
        slots
    } else {
        weights_written(slots, account, key, weights, (n - 1) as nat).insert(
            (account, slot_of(key, WEIGHTED_RESOURCES_BASE_OFFSET + n - 1)),
            weight_of(weights, n - 1),
        )
    }
}

/// The slots after the first `n` offsets of the space `key` of `account`
/// are set to zero, in order.
pub open spec fn offsets_zeroed(slots: Map<(Seq<u8>, int), int>, account: Seq<u8>, key: Seq<u8>, n: nat) -> Map<
    (Seq<u8>, int),
    int,
>
    decreases n,
{
    if n == 0 {
        slots
    } else {
        offsets_zeroed(slots, account, key, (n - 1) as nat).insert((account, slot_of(key, n - 1)), 0)
    }
}

/// A multi-gas constraint kept in a storage space.
pub struct MultiGasConstraint<B: Burner> {
    target: StorageBackedUint64<B>,
    adjustment_window: StorageBackedUint32<B>,
    backlog: StorageBackedUint64<B>,
    max_weight: StorageBackedUint64<B>,
    weighted_resources: Vec<StorageBackedUint64<B>>,
    storage_key: Ghost<Seq<u8>>,
}

impl<B: Burner> MultiGasConstraint<B> {
    /// The account whose storage holds the constraint.
    pub closed spec fn account(&self) -> Seq<u8> {
        self.target.account_view()
    }

    /// The key of the constraint's space.
    pub closed spec fn key(&self) -> Seq<u8> {
        self.storage_key@
    }

    /// The word at `offset` of the constraint's space.
    pub open spec fn field(&self, db: InMemoryDB, offset: int) -> int {
        slot_value(db, self.account(), slot_of(self.key(), offset))
    }

    /// The handles sit at their offsets of the space, one weight per kind.
    pub closed spec fn inv(&self) -> bool {
        &&& self.target.slot_view() == slot_of(self.key(), TARGET_OFFSET as int)
        &&& self.adjustment_window.account_view() == self.account()
        &&& self.adjustment_window.slot_view() == slot_of(self.key(), ADJUSTMENT_WINDOW_OFFSET as int)
        &&& self.backlog.account_view() == self.account()
        &&& self.backlog.slot_view() == slot_of(self.key(), BACKLOG_OFFSET as int)
        &&& self.max_weight.account_view() == self.account()
        &&& self.max_weight.slot_view() == slot_of(self.key(), MAX_WEIGHT_OFFSET as int)
        &&& self.weighted_resources@.len() == ResourceKind::COUNT
        &&& forall|i: int|
            0 <= i < ResourceKind::COUNT ==> {
                &&& (#[trigger] self.weighted_resources@[i]).account_view() == self.account()
                &&& self.weighted_resources@[i].slot_view() == slot_of(
                    self.key(),
                    WEIGHTED_RESOURCES_BASE_OFFSET + i,
                )
            }
    }

    /// The constraint kept in the space `sto`.
    pub fn open(sto: &Storage<B>) -> (r: Self)
        where
            B: Clone,
        ensures
            r.inv(),
            r.account() == sto.account.bytes@,
            r.key() == sto.storage_key@,
    {
        let mut weighted_resources: Vec<StorageBackedUint64<B>> = Vec::new();
        let mut i: usize = 0;
        while i < ResourceKind::COUNT
            invariant
                i <= ResourceKind::COUNT,
                weighted_resources@.len() == i,
                forall|j: int|
                    0 <= j < i ==> {
                        &&& (#[trigger] weighted_resources@[j]).account_view() == sto.account.bytes@
                        &&& weighted_resources@[j].slot_view() == slot_of(
                            sto.storage_key@,
                            WEIGHTED_RESOURCES_BASE_OFFSET + j,
                        )
                    },
            decreases ResourceKind::COUNT - i,
        {
            weighted_resources.push(sto.open_storage_backed_uint64(WEIGHTED_RESOURCES_BASE_OFFSET + i as u64));
            i += 1;
        }
        MultiGasConstraint {
            target: sto.open_storage_backed_uint64(TARGET_OFFSET),
            adjustment_window: sto.open_storage_backed_uint32(ADJUSTMENT_WINDOW_OFFSET),
            backlog: sto.open_storage_backed_uint64(BACKLOG_OFFSET),
            max_weight: sto.open_storage_backed_uint64(MAX_WEIGHT_OFFSET),
            weighted_resources,
            storage_key: Ghost(sto.storage_key@),
        }
    }

    /// Sets every field to zero: offsets 0 to 11 of the space, in order.
    pub fn clear(&mut self, db: &mut InMemoryDB)
        requires
            old(self).inv(),
        ensures
            final(self).inv(),
            final(self).account() == old(self).account(),
            final(self).key() == old(self).key(),
            db_slots(*final(db)) == offsets_zeroed(
                db_slots(*old(db)),
                old(self).account(),
                old(self).key(),
                (WEIGHTED_RESOURCES_BASE_OFFSET + ResourceKind::COUNT) as nat,
            ),
            db_balances(*final(db)) == db_balances(*old(db)),
    {
        let ghost db0 = *db;
        self.target.clear(db);
        self.adjustment_window.clear(db);
        self.backlog.clear(db);
        self.max_weight.clear(db);
        proof {
            reveal_with_fuel(offsets_zeroed, 5);
        }
        let mut i: usize = 0;
        while i < ResourceKind::COUNT
            invariant
                i <= ResourceKind::COUNT,
                self.inv(),
                self.account() == old(self).account(),
                self.key() == old(self).key(),
                db_slots(*db) == offsets_zeroed(
                    db_slots(db0),
                    self.account(),
                    self.key(),
                    (WEIGHTED_RESOURCES_BASE_OFFSET + i) as nat,
                ),
                db_balances(*db) == db_balances(db0),
            decreases ResourceKind::COUNT - i,
        {
            let ghost w0 = self.weighted_resources@;
            self.weighted_resources[i].clear(db);
            assert(self.weighted_resources@ =~= w0);
            i += 1;
        }
    }

    /// Stores the weight of each resource kind, the weight that `weights`
    /// gives its id or zero, in order of id, and then the largest of them.
    pub fn set_resource_weights(&mut self, db: &mut InMemoryDB, weights: &HashMap<u8, u64>)
        requires
            old(self).inv(),
        ensures
            final(self).inv(),
            final(self).account() == old(self).account(),
            final(self).key() == old(self).key(),
            db_slots(*final(db)) == weights_written(
                db_slots(*old(db)),
                old(self).account(),
                old(self).key(),
                weights@,
                ResourceKind::COUNT as nat,
            ).insert(
                (old(self).account(), slot_of(old(self).key(), MAX_WEIGHT_OFFSET as int)),
                max_weight_of(weights@, ResourceKind::COUNT as nat),
            ),
            db_balances(*final(db)) == db_balances(*old(db)),
    {
        let ghost db0 = *db;
        let mut max_weight: u64 = 0;
        let mut i: usize = 0;
        while i < ResourceKind::COUNT
            invariant
                i <= ResourceKind::COUNT,
                self.inv(),
                self.account() == old(self).account(),
                self.key() == old(self).key(),
                max_weight == max_weight_of(weights@, i as nat),
                db_slots(*db) == weights_written(db_slots(db0), self.account(), self.key(), weights@, i as nat),
                db_balances(*db) == db_balances(db0),
            decreases ResourceKind::COUNT - i,
        {
            let key: u8 = i as u8;
            let weight: u64 = match weights.get(&key) {
                Some(w) => *w,
                None => 0,
            };
            if weight > max_weight {
                max_weight = weight;
            }
            let ghost w0 = self.weighted_resources@;
            self.weighted_resources[i].set(db, weight);
            assert(self.weighted_resources@ =~= w0);
            i += 1;
        }
        self.max_weight.set(db, max_weight)
    }

    /// The target; the stored word must fit a `u64`.
    pub fn target(&self, db: &InMemoryDB) -> (r: u64)
        requires
            self.inv(),
            self.field(*db, TARGET_OFFSET as int) <= u64_max(),
        ensures
            r == self.field(*db, TARGET_OFFSET as int),
    {
        self.target.get(db)
    }

    /// Stores the target.
    pub fn set_target(&mut self, db: &mut InMemoryDB, val: u64)
        requires
            old(self).inv(),
        ensures
            *final(self) == *old(self),
            db_slots(*final(db)) == db_slots(*old(db)).insert(
                (old(self).account(), slot_of(old(self).key(), TARGET_OFFSET as int)),
                val as int,
            ),
            db_balances(*final(db)) == db_balances(*old(db)),
    {
        self.target.set(db, val)
    }

    /// The adjustment window; the stored word must fit a `u32`.
    pub fn adjustment_window(&self, db: &InMemoryDB) -> (r: u32)
        requires
            self.inv(),
            self.field(*db, ADJUSTMENT_WINDOW_OFFSET as int) <= u32::MAX,
        ensures
            r == self.field(*db, ADJUSTMENT_WINDOW_OFFSET as int),
    {
        self.adjustment_window.get(db)
    }

    /// Stores the adjustment window.
    pub fn set_adjustment_window(&mut self, db: &mut InMemoryDB, val: u32)
        requires
            old(self).inv(),
        ensures
            *final(self) == *old(self),
            db_slots(*final(db)) == db_slots(*old(db)).insert(
                (old(self).account(), slot_of(old(self).key(), ADJUSTMENT_WINDOW_OFFSET as int)),
                val as int,
            ),
            db_balances(*final(db)) == db_balances(*old(db)),
    {
        self.adjustment_window.set(db, val)
    }

    /// The backlog; the stored word must fit a `u64`.
    pub fn backlog(&self, db: &InMemoryDB) -> (r: u64)
        requires
            self.inv(),
            self.field(*db, BACKLOG_OFFSET as int) <= u64_max(),
        ensures
            r == self.field(*db, BACKLOG_OFFSET as int),
    {
        self.backlog.get(db)
    }

    /// Stores the backlog.
    pub fn set_backlog(&mut self, db: &mut InMemoryDB, val: u64)
        requires
            old(self).inv(),
        ensures
            *final(self) == *old(self),
            db_slots(*final(db)) == db_slots(*old(db)).insert(
                (old(self).account(), slot_of(old(self).key(), BACKLOG_OFFSET as int)),
                val as int,
            ),
            db_balances(*final(db)) == db_balances(*old(db)),
    {
        self.backlog.set(db, val)
    }
}

} // verus!
