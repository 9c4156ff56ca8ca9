//! Per-resource base fees: the fee for the next block of each resource kind
//! at offsets 0 to 7 of the space, the fee for the current block at offsets
//! 8 to 15, each a signed word.
use vstd::prelude::*;

use revm::database::InMemoryDB;

use crate::burn::Burner;
use crate::multigas::ResourceKind;
use crate::statedb::{db_balances, db_slots, slot_value};
use crate::storage::{offsets_distinct, slot_of, Storage, StorageBackedBigInt};
use crate::word::I256;

verus! {

/// The offset of the next-block fee of the kind with id 0.
pub const NEXT_BLOCK_FEES_OFFSET: u64 = 0;

/// The offset of the current-block fee of the kind with id 0.
pub const CURRENT_BLOCK_FEES_OFFSET: u64 = 8;

/// The slots after the next-block fees of the kinds with ids below `n`,
/// as `next` gives them, are copied to the current-block fees, in order.
pub open spec fn fees_committed(
    slots: Map<(Seq<u8>, int), int>,
    account: Seq<u8>,
    key: Seq<u8>,
    next: spec_fn(int) -> int,
    n: nat,
) -> Map<(Seq<u8>, int), int>
    decreases n,
{
    if n == 0 {
        slots
    } else {
        fees_committed(slots, account, key, next, (n - 1) as nat).insert(
            (account, slot_of(key, CURRENT_BLOCK_FEES_OFFSET + n - 1)),
            next(n - 1),
        )
    }
}

/// The base fees of each resource kind, kept in a storage space.
pub struct MultiGasFees<B: Burner> {
    next: Vec<StorageBackedBigInt<B>>,
    current: Vec<StorageBackedBigInt<B>>,
    account: Ghost<Seq<u8>>,
    storage_key: Ghost<Seq<u8>>,
}

impl<B: Burner> MultiGasFees<B> {
    /// The account whose storage holds the fees.
    pub closed spec fn account(&self) -> Seq<u8> {
        self.account@
    }

    /// The key of the fees' space.
    pub closed spec fn key(&self) -> Seq<u8> {
        self.storage_key@
    }

    /// The stored word of the next-block fee of the kind with id `i`.
    pub open spec fn next_fee(&self, db: InMemoryDB, i: int) -> int {
        slot_value(db, self.account(), slot_of(self.key(), NEXT_BLOCK_FEES_OFFSET + i))
    }

    /// The stored word of the current-block fee of the kind with id `i`.
    pub open spec fn current_fee(&self, db: InMemoryDB, i: int) -> int {
        slot_value(db, self.account(), slot_of(self.key(), CURRENT_BLOCK_FEES_OFFSET + i))
    }

    /// The handles sit at their offsets of the space, one of each per kind.
    pub closed spec fn inv(&self) -> bool {
        &&& self.next@.len() == ResourceKind::COUNT
        &&& self.current@.len() == ResourceKind::COUNT
        &&& forall|i: int|
            0 <= i < ResourceKind::COUNT ==> {
                &&& (#[trigger] self.next@[i]).account_view() == self.account()
                &&& self.next@[i].slot_view() == slot_of(self.key(), NEXT_BLOCK_FEES_OFFSET + i)
            }
        &&& forall|i: int|
            0 <= i < ResourceKind::COUNT ==> {
                &&& (#[trigger] self.current@[i]).account_view() == self.account()
                &&& self.current@[i].slot_view() == slot_of(self.key(), CURRENT_BLOCK_FEES_OFFSET + i)
            }
    }

    /// The fees kept in the space `sto`.
    pub fn open(sto: &Storage<B>) -> (r: Self)
        where
            B: Clone,
        ensures
            r.inv(),
            r.account() == sto.account.bytes@,
            r.key() == sto.storage_key@,
    {
        let mut next: Vec<StorageBackedBigInt<B>> = Vec::new();
        let mut current: Vec<StorageBackedBigInt<B>> = Vec::new();
        let mut i: usize = 0;
        while i < ResourceKind::COUNT
            invariant
                i <= ResourceKind::COUNT,
                next@.len() == i,
                current@.len() == i,
                forall|j: int|
                    0 <= j < i ==> {
                        &&& (#[trigger] next@[j]).account_view() == sto.account.bytes@
                        &&& next@[j].slot_view() == slot_of(sto.storage_key@, NEXT_BLOCK_FEES_OFFSET + j)
                    },
                forall|j: int|
                    0 <= j < i ==> {
                        &&& (#[trigger] current@[j]).account_view() == sto.account.bytes@
                        &&& current@[j].slot_view() == slot_of(sto.storage_key@, CURRENT_BLOCK_FEES_OFFSET + j)
                    },
            decreases ResourceKind::COUNT - i,
        {
            next.push(sto.open_storage_backed_big_int(NEXT_BLOCK_FEES_OFFSET + i as u64));
            current.push(sto.open_storage_backed_big_int(CURRENT_BLOCK_FEES_OFFSET + i as u64));
            i += 1;
        }
        MultiGasFees { next, current, account: Ghost(sto.account.bytes@), storage_key: Ghost(sto.storage_key@) }
    }

    /// The current-block fee of `kind`.
    pub fn get_current_block_fee(&self, kind: ResourceKind, db: &InMemoryDB) -> (r: I256)
        requires
            self.inv(),
        ensures
            r.raw.value() == self.current_fee(*db, kind.id() as int),
    {
        self.current[kind.as_index()].get(db)
    }

    /// The next-block fee of `kind`.
    pub fn get_next_block_fee(&self, kind: ResourceKind, db: &InMemoryDB) -> (r: I256)
        requires
            self.inv(),
        ensures
            r.raw.value() == self.next_fee(*db, kind.id() as int),
    {
        self.next[kind.as_index()].get(db)
    }

    /// Stores the next-block fee of `kind`.
    pub fn set_next_block_fee(&mut self, kind: ResourceKind, v: I256, db: &mut InMemoryDB)
        requires
            old(self).inv(),
        ensures
            final(self).inv(),
            final(self).account() == old(self).account(),
            final(self).key() == old(self).key(),
            db_slots(*final(db)) == db_slots(*old(db)).insert(
                (old(self).account(), slot_of(old(self).key(), NEXT_BLOCK_FEES_OFFSET + kind.id())),
                v.raw.value(),
            ),
            db_balances(*final(db)) == db_balances(*old(db)),
    {
        let i = kind.as_index();
        let ghost n0 = self.next@;
        self.next[i].set_checked(db, v);
        assert(self.next@ =~= n0);
    }

    /// Copies the next-block fee of each kind to its current-block fee, in
    /// order of id. The sixteen fee slots must be distinct (they are unless
    /// keccak256 collides).
    pub fn commit_next_to_current(&mut self, db: &mut InMemoryDB)
        requires
            old(self).inv(),
            offsets_distinct(old(self).key(), 16),
        ensures
            final(self).inv(),
            final(self).account() == old(self).account(),
            final(self).key() == old(self).key(),
            db_slots(*final(db)) == fees_committed(
                db_slots(*old(db)),
                old(self).account(),
                old(self).key(),
                |i: int| old(self).next_fee(*old(db), i),
                ResourceKind::COUNT as nat,
            ),
            db_balances(*final(db)) == db_balances(*old(db)),
    {
        let ghost db0 = *db;
        let ghost next0 = |i: int| old(self).next_fee(*old(db), i);
        let mut i: usize = 0;
        while i < ResourceKind::COUNT
            invariant
                i <= ResourceKind::COUNT,
                self.inv(),
                self.account() == old(self).account(),
                self.key() == old(self).key(),
                next0 == (|j: int| old(self).next_fee(db0, j)),
                forall|j: int| i <= j < ResourceKind::COUNT ==> self.next_fee(*db, j) == #[trigger] next0(j),
                db_slots(*db) == fees_committed(db_slots(db0), self.account(), self.key(), next0, i as nat),
                db_balances(*db) == db_balances(db0),
                offsets_distinct(self.key(), 16),
            decreases ResourceKind::COUNT - i,
        {
            let val = self.next[i].get(db);
            let ghost c0 = self.current@;
            self.current[i].set_checked(db, val);
            assert(self.current@ =~= c0);
            proof {
                assert forall|j: int| i + 1 <= j < ResourceKind::COUNT implies self.next_fee(*db, j) == #[trigger] next0(j) by {
                    assert(slot_of(self.key(), NEXT_BLOCK_FEES_OFFSET + j) != slot_of(
                        self.key(),
                        CURRENT_BLOCK_FEES_OFFSET + i,
                    ));
                }
            }
            i += 1;
        }
    }
}

} // verus!
