//! A first-in first-out queue of words kept in a storage space: the next
//! offset to put at (offset 0), the next offset to get from (offset 1), and
//! the entries at the offsets in between.
use vstd::prelude::*;

use revm::database::InMemoryDB;

use crate::burn::Burner;
use crate::multigas::u64_max;
use crate::statedb::{db_balances, db_slot_written, db_slots, slot_value};
use crate::storage::{offsets_distinct, slot_of, Storage, StorageBackedUint64};
use crate::word::U256;

verus! {

/// A queue of words kept in storage.
pub struct Queue<B: Burner> {
    storage: Storage<B>,
    next_put_offset: StorageBackedUint64<B>,
    next_get_offset: StorageBackedUint64<B>,
}

/// The offset that an empty queue starts putting and getting at.
pub const QUEUE_START_OFFSET: u64 = 2;

impl<B: Burner> Queue<B> {
    /// The account whose storage holds the queue.
    pub closed spec fn account(&self) -> Seq<u8> {
        self.storage.account.bytes@
    }

    /// The key of the queue's space.
    pub closed spec fn key(&self) -> Seq<u8> {
        self.storage.storage_key@
    }

    /// The word at offset `i` of the queue's space.
    pub open spec fn at(&self, db: InMemoryDB, i: int) -> int {
        slot_value(db, self.account(), slot_of(self.key(), i))
    }

    /// The next offset to put at.
    pub open spec fn put_offset(&self, db: InMemoryDB) -> int {
        self.at(db, 0)
    }

    /// The next offset to get from.
    pub open spec fn get_offset(&self, db: InMemoryDB) -> int {
        self.at(db, 1)
    }

    /// The entries, oldest first.
    pub open spec fn contents(&self, db: InMemoryDB) -> Seq<int> {
        Seq::new(
            (self.put_offset(db) - self.get_offset(db)) as nat,
            |i: int| self.at(db, self.get_offset(db) + i),
        )
    }

    /// How the queue's parts fit together: the offsets' handles at offsets 0
    /// and 1 of its space, whose offsets have distinct slots (they do unless
    /// keccak256 collides).
    pub closed spec fn inv(&self) -> bool {
        &&& self.next_put_offset.account_view() == self.account()
        &&& self.next_put_offset.slot_view() == slot_of(self.key(), 0)
        &&& self.next_get_offset.account_view() == self.account()
        &&& self.next_get_offset.slot_view() == slot_of(self.key(), 1)
        &&& offsets_distinct(self.key(), u64_max())
    }

    /// Whether the stored queue is consistent: its offsets in order, from 2
    /// on, within `u64`.
    pub open spec fn valid(&self, db: InMemoryDB) -> bool {
        &&& self.inv()
        &&& QUEUE_START_OFFSET <= self.get_offset(db) <= self.put_offset(db) <= u64_max()
    }

    /// Stores an empty queue in the space `sto`: both offsets at 2.
    pub fn initialize(sto: &Storage<B>, db: &mut InMemoryDB)
        ensures
            db_slots(*final(db)) == db_slots(*old(db)).insert(
                (sto.account.bytes@, sto.slot(0)),
                QUEUE_START_OFFSET as int,
            ).insert((sto.account.bytes@, sto.slot(1)), QUEUE_START_OFFSET as int),
            db_balances(*final(db)) == db_balances(*old(db)),
    {
        sto.set_uint64_by_uint64(db, 0, QUEUE_START_OFFSET);
        sto.set_uint64_by_uint64(db, 1, QUEUE_START_OFFSET)
    }

    /// The queue kept in the space `sto`.
    pub fn open(sto: &Storage<B>) -> (r: Self)
        where
            B: Clone,
        ensures
            r.account() == sto.account.bytes@,
            r.key() == sto.storage_key@,
            offsets_distinct(sto.storage_key@, u64_max()) ==> r.inv(),
    {
        Queue {
            storage: Storage { account: sto.account, storage_key: sto.storage_key.clone(), burner: sto.burner.clone() },
            next_put_offset: sto.open_storage_backed_uint64(0),
            next_get_offset: sto.open_storage_backed_uint64(1),
        }
    }

    /// Whether the queue is empty.
    pub fn is_empty(&self, db: &InMemoryDB) -> (r: bool)
        requires
            self.valid(*db),
        ensures
            r == (self.contents(*db).len() == 0),
    {
        let put = self.next_put_offset.get(db);
        let get = self.next_get_offset.get(db);
        put == get
    }

    /// The number of entries.
    pub fn size(&self, db: &InMemoryDB) -> (r: u64)
        requires
            self.valid(*db),
        ensures
            r == self.contents(*db).len(),
    {
        let put = self.next_put_offset.get(db);
        let get = self.next_get_offset.get(db);
        put - get
    }

    /// The oldest entry, if any, left in place.
    pub fn peek(&self, db: &InMemoryDB) -> (r: Option<U256>)
        requires
            self.valid(*db),
        ensures
            match r {
                None => self.contents(*db).len() == 0,
                Some(v) => self.contents(*db).len() > 0 && v.value() == self.contents(*db)[0],
            },
    {
        if self.is_empty(db) {
            return None;
        }
        let next = self.next_get_offset.get(db);
        Some(self.storage.get_by_uint64(db, next))
    }

    /// Whether `db2` is `db1` after taking the oldest entry off the queue,
    /// leaving zero in its slot.
    pub open spec fn taken(&self, db1: InMemoryDB, db2: InMemoryDB) -> bool {
        db_slots(db2) == db_slots(db1).insert((self.account(), slot_of(self.key(), 1)), self.get_offset(db1) + 1).insert(
            (self.account(), slot_of(self.key(), self.get_offset(db1))),
            0,
        ) && db_balances(db2) == db_balances(db1)
    }

    /// Takes the oldest entry off the queue, if any.
    pub fn get(&mut self, db: &mut InMemoryDB) -> (r: Option<U256>)
        requires
            old(self).valid(*old(db)),
        ensures
            *final(self) == *old(self),
            final(self).valid(*final(db)),
            match r {
                None => old(self).contents(*old(db)).len() == 0 && *final(db) == *old(db),
                Some(v) => {
                    &&& old(self).contents(*old(db)).len() > 0
                    &&& v.value() == old(self).contents(*old(db))[0]
                    &&& final(self).contents(*final(db)) == old(self).contents(*old(db)).drop_first()
                    &&& old(self).taken(*old(db), *final(db))
                },
            },
    {
        if self.is_empty(db) {
            return None;
        }
        let ghost db0 = *db;
        let new_offset = self.next_get_offset.increment(db);
        let res = self.storage.swap(db, U256::from_u64(new_offset - 1), U256::zero());
        proof {
            let g = self.get_offset(db0);
            assert(slot_of(self.key(), g) != slot_of(self.key(), 1));
            assert(slot_of(self.key(), g) != slot_of(self.key(), 0));
            assert forall|i: int| 0 <= i < self.contents(*db).len() implies #[trigger] self.contents(*db)[i]
                == self.contents(db0).drop_first()[i] by {
                assert(slot_of(self.key(), g + 1 + i) != slot_of(self.key(), g));
                assert(slot_of(self.key(), g + 1 + i) != slot_of(self.key(), 1));
            }
            assert(self.contents(*db) =~= self.contents(db0).drop_first());
        }
        Some(res)
    }

    /// Whether `db2` is `db1` after putting `v` at the end of the queue.
    pub open spec fn put_done(&self, db1: InMemoryDB, db2: InMemoryDB, v: int) -> bool {
        db_slots(db2) == db_slots(db1).insert((self.account(), slot_of(self.key(), 0)), self.put_offset(db1) + 1).insert(
            (self.account(), slot_of(self.key(), self.put_offset(db1))),
            v,
        ) && db_balances(db2) == db_balances(db1)
    }

    /// Puts `val` at the end of the queue; the put offset must be below `u64::MAX`.
    pub fn put(&mut self, db: &mut InMemoryDB, val: U256)
        requires
            old(self).valid(*old(db)),
            old(self).put_offset(*old(db)) < u64_max(),
        ensures
            *final(self) == *old(self),
            final(self).valid(*final(db)),
            final(self).contents(*final(db)) == old(self).contents(*old(db)).push(val.value()),
            old(self).put_done(*old(db), *final(db), val.value()),
    {
        let ghost db0 = *db;
        let new_offset = self.next_put_offset.increment(db);
        self.storage.set_by_uint64(db, new_offset - 1, val);
        proof {
            let p = self.put_offset(db0);
            let g = self.get_offset(db0);
            assert(slot_of(self.key(), p) != slot_of(self.key(), 1));
            assert(slot_of(self.key(), p) != slot_of(self.key(), 0));
            assert forall|i: int| 0 <= i < self.contents(*db).len() implies #[trigger] self.contents(*db)[i]
                == self.contents(db0).push(val.value())[i] by {
                if g + i != p {
                    assert(slot_of(self.key(), g + i) != slot_of(self.key(), p));
                    assert(slot_of(self.key(), g + i) != slot_of(self.key(), 0));
                }
            }
            assert(self.contents(*db) =~= self.contents(db0).push(val.value()));
        }
    }

    /// Where the queue is empty, moves both offsets back to 2 and returns
    /// true; otherwise returns false and changes nothing.
    pub fn shift(&mut self, db: &mut InMemoryDB) -> (r: bool)
        requires
            old(self).valid(*old(db)),
        ensures
            *final(self) == *old(self),
            final(self).valid(*final(db)),
            r == (old(self).contents(*old(db)).len() == 0),
            final(self).contents(*final(db)) == old(self).contents(*old(db)),
            !r ==> *final(db) == *old(db),
            r ==> db_slots(*final(db)) == db_slots(*old(db)).insert(
                (old(self).account(), slot_of(old(self).key(), 1)),
                QUEUE_START_OFFSET as int,
            ).insert((old(self).account(), slot_of(old(self).key(), 0)), QUEUE_START_OFFSET as int),
            db_balances(*final(db)) == db_balances(*old(db)),
    {
        let put = self.next_put_offset.get(db);
        let get = self.next_get_offset.get(db);
        if put != get {
            return false;
        }
        self.next_get_offset.set(db, QUEUE_START_OFFSET);
        self.next_put_offset.set(db, QUEUE_START_OFFSET);
        proof {
            assert(self.contents(*db) =~= Seq::<int>::empty());
        }
        true
    }

    /// Calls `closure` on each entry's index and word, oldest first, until
    /// it returns true.
    pub fn for_each<F: Fn(u64, U256) -> bool>(&self, db: &InMemoryDB, closure: F)
        requires
            self.valid(*db),
            forall|i: u64, v: U256| #[trigger] closure.requires((i, v)),
    {
        let size = self.size(db);
        let offset = self.next_get_offset.get(db);
        let mut index: u64 = 0;
        while index < size
            invariant
                index <= size,
                size == self.contents(*db).len(),
                offset == self.get_offset(*db),
                self.valid(*db),
                forall|i: u64, v: U256| #[trigger] closure.requires((i, v)),
            decreases size - index,
        {
            let entry = self.storage.get_by_uint64(db, offset + index);
            if closure(index, entry) {
                return;
            }
            index += 1;
        }
    }
}

/// Law: a queue gives its entries back in the order they were put: putting
/// `v` and then getting gives the oldest entry (`v` itself where the queue
/// was empty) and leaves the rest followed by `v`.
pub proof fn law_queue_fifo<B: Burner>(q: Queue<B>, db0: InMemoryDB, db1: InMemoryDB, db2: InMemoryDB, v: int)
    requires
        q.valid(db0),
        q.contents(db1) == q.contents(db0).push(v),
        q.contents(db1).len() > 0,
        q.contents(db2) == q.contents(db1).drop_first(),
    ensures
        q.contents(db1)[0] == if q.contents(db0).len() == 0 {
            v
        } else {
            q.contents(db0)[0]
        },
        q.contents(db2) == if q.contents(db0).len() == 0 {
            Seq::<int>::empty()
        } else {
            q.contents(db0).drop_first().push(v)
        },
{
    assert(q.contents(db0).push(v).drop_first() =~= if q.contents(db0).len() == 0 {
        Seq::<int>::empty()
    } else {
        q.contents(db0).drop_first().push(v)
    });
}

} // verus!
