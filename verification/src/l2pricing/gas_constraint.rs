//! A gas constraint: a target, an adjustment window and a backlog, at
//! offsets 0, 1 and 2 of its storage space.
use vstd::prelude::*;

use revm::database::InMemoryDB;

use crate::burn::Burner;
use crate::multigas::u64_max;
use crate::statedb::{db_balances, db_slots, slot_value};
use crate::storage::{slot_of, Storage, StorageBackedUint64};

verus! {

/// The offset of the target.
pub const TARGET_OFFSET: u64 = 0;

/// The offset of the adjustment window.
pub const ADJUSTMENT_WINDOW_OFFSET: u64 = 1;

/// The offset of the backlog.
pub const BACKLOG_OFFSET: u64 = 2;

/// A gas constraint kept in a storage space.
pub struct GasConstraint<B: Burner> {
    target: StorageBackedUint64<B>,
    adjustment_window: StorageBackedUint64<B>,
    backlog: StorageBackedUint64<B>,
    storage_key: Ghost<Seq<u8>>,
}

impl<B: Burner> GasConstraint<B> {
    /// The account whose storage holds the constraint.
    pub closed spec fn account(&self) -> Seq<u8> {
        self.target.account_view()
    }

    /// The key of the constraint's space.
    pub closed spec fn key(&self) -> Seq<u8> {
        self.storage_key@
    }

    /// The word at `offset` of the constraint's space.
    pub open spec fn field(&self, db: InMemoryDB, offset: int) -> int {
        slot_value(db, self.account(), slot_of(self.key(), offset))
    }

    /// The handles sit at offsets 0, 1 and 2 of the space.
    pub closed spec fn inv(&self) -> bool {
        &&& self.target.slot_view() == slot_of(self.key(), TARGET_OFFSET as int)
        &&& self.adjustment_window.account_view() == self.account()
        &&& self.adjustment_window.slot_view() == slot_of(self.key(), ADJUSTMENT_WINDOW_OFFSET as int)
        &&& self.backlog.account_view() == self.account()
        &&& self.backlog.slot_view() == slot_of(self.key(), BACKLOG_OFFSET as int)
    }

    /// The constraint kept in the space `sto`.
    pub fn open(sto: &Storage<B>) -> (r: Self)
        where
            B: Clone,
        ensures
            r.inv(),
            r.account() == sto.account.bytes@,
            r.key() == sto.storage_key@,
    {
        GasConstraint {
            target: sto.open_storage_backed_uint64(TARGET_OFFSET),
            adjustment_window: sto.open_storage_backed_uint64(ADJUSTMENT_WINDOW_OFFSET),
            backlog: sto.open_storage_backed_uint64(BACKLOG_OFFSET),
            storage_key: Ghost(sto.storage_key@),
        }
    }

    /// Sets the target, the adjustment window and the backlog to zero.
    pub fn clear(&mut self, db: &mut InMemoryDB)
        requires
            old(self).inv(),
        ensures
            *final(self) == *old(self),
            db_slots(*final(db)) == db_slots(*old(db)).insert(
                (old(self).account(), slot_of(old(self).key(), TARGET_OFFSET as int)),
                0,
            ).insert((old(self).account(), slot_of(old(self).key(), ADJUSTMENT_WINDOW_OFFSET as int)), 0).insert(
                (old(self).account(), slot_of(old(self).key(), BACKLOG_OFFSET as int)),
                0,
            ),
            db_balances(*final(db)) == db_balances(*old(db)),
    {
        self.target.clear(db);
        self.adjustment_window.clear(db);
        self.backlog.clear(db);
    }

    /// The target; the stored word must fit a `u64`.
    pub fn target(&self, db: &InMemoryDB) -> (r: u64)
        requires
            self.inv(),
            self.field(*db, TARGET_OFFSET as int) <= u64_max(),
        ensures
            r == self.field(*db, TARGET_OFFSET as int),
    {
        self.target.get(db)
    }

    /// Stores the target.
    pub fn set_target(&mut self, db: &mut InMemoryDB, val: u64)
        requires
            old(self).inv(),
        ensures
            *final(self) == *old(self),
            db_slots(*final(db)) == db_slots(*old(db)).insert(
                (old(self).account(), slot_of(old(self).key(), TARGET_OFFSET as int)),
                val as int,
            ),
            db_balances(*final(db)) == db_balances(*old(db)),
    {
        self.target.set(db, val)
    }

    /// The adjustment window; the stored word must fit a `u64`.
    pub fn adjustment_window(&self, db: &InMemoryDB) -> (r: u64)
        requires
            self.inv(),
            self.field(*db, ADJUSTMENT_WINDOW_OFFSET as int) <= u64_max(),
        ensures
            r == self.field(*db, ADJUSTMENT_WINDOW_OFFSET as int),
    {
        self.adjustment_window.get(db)
    }

    /// Stores the adjustment window.
    pub fn set_adjustment_window(&mut self, db: &mut InMemoryDB, val: u64)
        requires
            old(self).inv(),
        ensures
            *final(self) == *old(self),
            db_slots(*final(db)) == db_slots(*old(db)).insert(
                (old(self).account(), slot_of(old(self).key(), ADJUSTMENT_WINDOW_OFFSET as int)),
                val as int,
            ),
            db_balances(*final(db)) == db_balances(*old(db)),
    {
        self.adjustment_window.set(db, val)
    }

    /// The backlog; the stored word must fit a `u64`.
    pub fn backlog(&self, db: &InMemoryDB) -> (r: u64)
        requires
            self.inv(),
            self.field(*db, BACKLOG_OFFSET as int) <= u64_max(),
        ensures
            r == self.field(*db, BACKLOG_OFFSET as int),
    {
        self.backlog.get(db)
    }

    /// Stores the backlog.
    pub fn set_backlog(&mut self, db: &mut InMemoryDB, val: u64)
        requires
            old(self).inv(),
        ensures
            *final(self) == *old(self),
            db_slots(*final(db)) == db_slots(*old(db)).insert(
                (old(self).account(), slot_of(old(self).key(), BACKLOG_OFFSET as int)),
                val as int,
            ),
            db_balances(*final(db)) == db_balances(*old(db)),
    {
        self.backlog.set(db, val)
    }
}

} // verus!
