//! The batch posters table: the set of batch posters, for each what it is
//! owed and where to pay it, and the total owed to all of them.
use vstd::prelude::*;

use core::convert::Infallible;
use revm::database::InMemoryDB;

use crate::address_set::{set_keys_no_collision, AddressSet};
use crate::burn::Burner;
use crate::multigas::u64_max;
use crate::statedb::{db_balances, db_slots, slot_value};
use crate::storage::{
    address_word, slot_of, sub_storage_key, word_address, Storage, StorageBackedAddress,
    StorageBackedBigInt,
};
use crate::word::{clamp_i256, i256_max, i256_min, i256_saturating_add, i256_saturating_sub, p255, p256, Address, I256};

verus! {

/// The signed value of a word's two's-complement bits.
pub open spec fn i256_of(raw: int) -> int {
    if raw >= p255() {
        raw - p256()
    } else {
        raw
    }
}

/// The two's-complement bits of a signed value.
pub open spec fn i256_raw(v: int) -> int {
    if v < 0 {
        v + p256()
    } else {
        v
    }
}

/// A signed word's bits and value agree with `i256_of` and `i256_raw`.
pub proof fn lemma_i256_raw(x: I256)
    ensures
        x.raw.value() == i256_raw(x.value()),
        x.value() == i256_of(x.raw.value()),
{
}

/// Offset of the total owed to all posters.
pub const TOTAL_FUNDS_DUE_OFFSET: u64 = 0;

/// Why opening or adding a batch poster failed.
#[derive(Clone, Copy, Debug, PartialEq, Eq, Structural)]
pub enum BatchPosterError {
    AlreadyExists,
    NotExist,
}

/// The failure of a table operation: a refusal, or a database error.
#[derive(Debug)]
pub enum OpenPosterResult<E> {
    Semantic(BatchPosterError),
    Db(E),
}

/// The batch posters table.
pub struct BatchPostersTable<B: Burner> {
    poster_addrs: AddressSet<B>,
    poster_info: Storage<B>,
    total_funds_due: StorageBackedBigInt<B>,
}

/// One batch poster's entry in the table.
pub struct BatchPosterState<B: Burner> {
    funds_due: StorageBackedBigInt<B>,
    pay_to: StorageBackedAddress<B>,
    table_total_funds_due: StorageBackedBigInt<B>,
}

/// A poster that is owed a positive amount, and the amount.
pub struct FundsDueItem {
    pub due_to: Address,
    pub balance: I256,
}

/// Whether `db2` is `db1` with two slots of `account` written, `s1` first.
pub open spec fn db_two_written(db1: InMemoryDB, db2: InMemoryDB, account: Seq<u8>, s1: int, v1: int, s2: int, v2: int) -> bool {
    &&& db_slots(db2) == db_slots(db1).insert((account, s1), v1).insert((account, s2), v2)
    &&& db_balances(db2) == db_balances(db1)
}

/// The total after one poster's amount changes from `prev` to `val`: the old
/// total plus `val`, minus `prev`, each step clamped to the signed range.
pub open spec fn adjusted_total(prev_total: int, val: int, prev: int) -> int {
    clamp_i256(clamp_i256(prev_total + val) - prev)
}

/// Whether `s` is a slot of the set kept in spaces `bk` (members) and `ak` (offsets).
pub open spec fn set_slot(bk: Seq<u8>, ak: Seq<u8>, s: int) -> bool {
    ||| exists|i: int| 0 <= i <= u64_max() && s == slot_of(bk, i)
    ||| exists|a: Seq<u8>| a.len() == 20 && s == slot_of(ak, address_word(a))
}

/// The slot of a poster's amount owed, in the entries space `ik`.
pub open spec fn entry_due_slot(ik: Seq<u8>, p: Seq<u8>) -> int {
    slot_of(sub_storage_key(ik, p), 0)
}

/// The slot of a poster's payee, in the entries space `ik`.
pub open spec fn entry_pay_to_slot(ik: Seq<u8>, p: Seq<u8>) -> int {
    slot_of(sub_storage_key(ik, p), 1)
}

/// Whether `s` is a slot of the table whose set is kept in `bk` and `ak`,
/// whose entries are kept in `ik` and whose total is in slot `ts`.
pub open spec fn table_slot(bk: Seq<u8>, ak: Seq<u8>, ik: Seq<u8>, ts: int, s: int) -> bool {
    ||| set_slot(bk, ak, s)
    ||| s == ts
    ||| exists|p: Seq<u8>| p.len() == 20 && (s == entry_due_slot(ik, p) || s == entry_pay_to_slot(ik, p))
}

/// The slots of such a table are pairwise distinct (they are unless keccak256 collides).
pub open spec fn table_keys_no_collision(bk: Seq<u8>, ak: Seq<u8>, ik: Seq<u8>, ts: int) -> bool {
    &&& set_keys_no_collision(bk, ak)
    &&& !set_slot(bk, ak, ts)
    &&& forall|p: Seq<u8>|
        p.len() == 20 ==> {
            &&& !set_slot(bk, ak, #[trigger] entry_due_slot(ik, p))
            &&& !set_slot(bk, ak, entry_pay_to_slot(ik, p))
            &&& entry_due_slot(ik, p) != ts
            &&& entry_pay_to_slot(ik, p) != ts
            &&& entry_due_slot(ik, p) != entry_pay_to_slot(ik, p)
        }
    &&& forall|p: Seq<u8>, q: Seq<u8>|
        p.len() == 20 && q.len() == 20 && p != q ==> {
            &&& #[trigger] entry_due_slot(ik, p) != #[trigger] entry_due_slot(ik, q)
            &&& entry_due_slot(ik, p) != entry_pay_to_slot(ik, q)
            &&& entry_pay_to_slot(ik, p) != entry_pay_to_slot(ik, q)
        }
}

impl<B: Burner> BatchPosterState<B> {
    /// The account whose storage holds the entry.
    pub closed spec fn account(&self) -> Seq<u8> {
        self.funds_due.account_view()
    }

    /// The slot of the amount owed.
    pub closed spec fn due_slot(&self) -> int {
        self.funds_due.slot_view()
    }

    /// The slot of the payee.
    pub closed spec fn pay_to_slot(&self) -> int {
        self.pay_to.slot_view()
    }

    /// The slot of the table's total.
    pub closed spec fn total_slot(&self) -> int {
        self.table_total_funds_due.slot_view()
    }

    /// All three slots are in the same account.
    pub closed spec fn inv(&self) -> bool {
        &&& self.pay_to.account_view() == self.account()
        &&& self.table_total_funds_due.account_view() == self.account()
    }

    /// The amount owed to the poster.
    pub fn funds_due(&self, db: &InMemoryDB) -> (r: I256)
        ensures
            r.raw.value() == slot_value(*db, self.account(), self.due_slot()),
    {
        self.funds_due.get(db)
    }

    /// Sets the amount owed to `val` and moves the table's total by the
    /// difference (clamped); the total is written first.
    pub fn set_funds_due(&mut self, db: &mut InMemoryDB, val: I256)
        requires
            old(self).inv(),
        ensures
            *final(self) == *old(self),
            db_two_written(
                *old(db),
                *final(db),
                old(self).account(),
                old(self).total_slot(),
                i256_raw(adjusted_total(
                    i256_of(slot_value(*old(db), old(self).account(), old(self).total_slot())),
                    val.value(),
                    i256_of(slot_value(*old(db), old(self).account(), old(self).due_slot())),
                )),
                old(self).due_slot(),
                val.raw.value(),
            ),
    {
        let prev = self.funds_due.get(db);
        let prev_total = self.table_total_funds_due.get(db);
        let new_total = i256_saturating_sub(i256_saturating_add(prev_total, val), prev);
        proof {
            lemma_i256_raw(new_total);
            lemma_i256_raw(prev);
            lemma_i256_raw(prev_total);
        }
        self.table_total_funds_due.set_saturating_with_warning(db, new_total, "batch poster total funds due");
        self.funds_due.set_saturating_with_warning(db, val, "batch poster funds due");
    }

    /// Where the poster is paid.
    pub fn pay_to(&self, db: &InMemoryDB) -> (r: Address)
        requires
            self.inv(),
        ensures
            r.bytes@ == word_address(slot_value(*db, self.account(), self.pay_to_slot())),
    {
        self.pay_to.get(db)
    }

    /// Sets where the poster is paid.
    pub fn set_pay_to(&mut self, db: &mut InMemoryDB, addr: Address)
        requires
            old(self).inv(),
        ensures
            *final(self) == *old(self),
            crate::statedb::db_slot_written(*old(db), *final(db), old(self).account(), old(self).pay_to_slot(), address_word(addr.bytes@)),
    {
        self.pay_to.set(db, addr)
    }
}

impl<B: Burner> BatchPostersTable<B> {
    /// The account whose storage holds the table.
    pub closed spec fn account(&self) -> Seq<u8> {
        self.poster_info.account.bytes@
    }

    /// The set of posters.
    pub closed spec fn addrs(&self) -> AddressSet<B> {
        self.poster_addrs
    }

    /// The key of the space that holds each poster's entry.
    pub closed spec fn info_key(&self) -> Seq<u8> {
        self.poster_info.storage_key@
    }

    /// The slot of the total owed.
    pub closed spec fn total_slot(&self) -> int {
        self.total_funds_due.slot_view()
    }

    /// The slot of what poster `p` is owed.
    pub open spec fn due_slot(&self, p: Seq<u8>) -> int {
        entry_due_slot(self.info_key(), p)
    }

    /// The slot of where poster `p` is paid.
    pub open spec fn pay_to_slot(&self, p: Seq<u8>) -> int {
        entry_pay_to_slot(self.info_key(), p)
    }

    /// The total owed, as stored.
    pub open spec fn total_in(&self, db: InMemoryDB) -> int {
        i256_of(slot_value(db, self.account(), self.total_slot()))
    }

    /// What poster `p` is owed.
    pub open spec fn due_in(&self, db: InMemoryDB, p: Seq<u8>) -> int {
        i256_of(slot_value(db, self.account(), self.due_slot(p)))
    }

    /// Where poster `p` is paid.
    pub open spec fn pay_to_in(&self, db: InMemoryDB, p: Seq<u8>) -> Seq<u8> {
        word_address(slot_value(db, self.account(), self.pay_to_slot(p)))
    }

    /// The posters in stored order.
    pub open spec fn posters(&self, db: InMemoryDB) -> Seq<Seq<u8>> {
        self.addrs().members(db)
    }

    /// Whether `p` is a poster.
    pub open spec fn is_poster(&self, db: InMemoryDB, p: Seq<u8>) -> bool {
        self.addrs().contains(db, p)
    }

    /// Whether `s` is one of the slots of the set of posters.
    pub open spec fn in_set_footprint(&self, s: int) -> bool {
        set_slot(self.addrs().backing_key(), self.addrs().index_key(), s)
    }

    /// Whether `s` is one of the table's slots.
    pub open spec fn in_footprint(&self, s: int) -> bool {
        table_slot(self.addrs().backing_key(), self.addrs().index_key(), self.info_key(), self.total_slot(), s)
    }

    /// The table's slots are pairwise distinct (they are unless keccak256 collides).
    pub open spec fn no_collision(&self) -> bool {
        table_keys_no_collision(self.addrs().backing_key(), self.addrs().index_key(), self.info_key(), self.total_slot())
    }

    /// How the table's parts fit together, whatever the storage holds.
    pub closed spec fn inv(&self) -> bool {
        &&& self.poster_addrs.inv()
        &&& self.poster_addrs.account() == self.account()
        &&& self.total_funds_due.account_view() == self.account()
        &&& self.no_collision()
    }

    /// The set of posters of a table whose parts fit is itself well formed.
    pub proof fn lemma_addrs_inv(&self)
        requires
            self.inv(),
        ensures
            self.addrs().inv(),
            self.addrs().account() == self.account(),
    {
    }

    /// Two well-formed tables kept in the same place read the same from any storage.
    pub proof fn lemma_same_place(&self, other: &Self, db: InMemoryDB)
        requires
            self.inv(),
            other.inv(),
            self.account() == other.account(),
            self.total_slot() == other.total_slot(),
            self.info_key() == other.info_key(),
            self.addrs().backing_key() == other.addrs().backing_key(),
            self.addrs().index_key() == other.addrs().index_key(),
        ensures
            self.valid(db) == other.valid(db),
            self.posters(db) == other.posters(db),
            self.total_in(db) == other.total_in(db),
            self.has_room(db) == other.has_room(db),
            forall|p: Seq<u8>| #[trigger] self.is_poster(db, p) == other.is_poster(db, p),
            forall|p: Seq<u8>| #[trigger] self.due_in(db, p) == other.due_in(db, p),
            forall|p: Seq<u8>| #[trigger] self.pay_to_in(db, p) == other.pay_to_in(db, p),
            forall|s: int| #[trigger] self.in_footprint(s) == other.in_footprint(s),
    {
        self.addrs().lemma_same_place(&other.addrs(), db);
    }

    /// The set of posters reads the same from two storages that agree on its slots.
    pub proof fn lemma_set_kept(&self, db1: InMemoryDB, db2: InMemoryDB)
        requires
            self.inv(),
            forall|s: int| self.in_set_footprint(s) ==> #[trigger] slot_value(db2, self.account(), s) == slot_value(
                db1,
                self.account(),
                s,
            ),
        ensures
            self.valid(db1) == self.valid(db2),
            self.valid(db1) ==> self.posters(db1) == self.posters(db2),
            self.has_room(db1) == self.has_room(db2),
            forall|p: Seq<u8>| p.len() == 20 ==> #[trigger] self.is_poster(db2, p) == self.is_poster(db1, p),
    {
        let set = self.addrs();
        assert forall|i: int| 0 <= i <= u64_max() implies #[trigger] set.member_word(db2, i) == set.member_word(db1, i) by {
            assert(self.in_set_footprint(slot_of(set.backing_key(), i)));
        }
        assert forall|a: Seq<u8>| a.len() == 20 implies #[trigger] set.index_in(db2, a) == set.index_in(db1, a) by {
            assert(self.in_set_footprint(slot_of(set.index_key(), address_word(a))));
        }
        set.lemma_slots_kept(db1, db2);
    }

    /// The posters of a consistent table are distinct addresses, each a
    /// poster, and every poster is among them.
    pub proof fn lemma_posters(&self, db: InMemoryDB)
        requires
            self.valid(db),
        ensures
            forall|i: int| 0 <= i < self.posters(db).len() ==> (#[trigger] self.posters(db)[i]).len() == 20
                && self.is_poster(db, self.posters(db)[i]),
            forall|i: int, j: int|
                0 <= i < self.posters(db).len() && 0 <= j < self.posters(db).len() && i != j ==> #[trigger] self.posters(db)[i]
                    != #[trigger] self.posters(db)[j],
            forall|q: Seq<u8>| q.len() == 20 && #[trigger] self.is_poster(db, q) ==> self.posters(db).contains(q),
    {
        let set = self.addrs();
        let ps = self.posters(db);
        assert forall|i: int| 0 <= i < ps.len() implies (#[trigger] ps[i]).len() == 20 && self.is_poster(db, ps[i]) by {
            assert(set.index_in(db, word_address(set.member_word(db, i + 1))) == i + 1);
        }
        assert forall|i: int, j: int| 0 <= i < ps.len() && 0 <= j < ps.len() && i != j implies #[trigger] ps[i] != #[trigger] ps[j] by {
            assert(set.index_in(db, word_address(set.member_word(db, i + 1))) == i + 1);
            assert(set.index_in(db, word_address(set.member_word(db, j + 1))) == j + 1);
        }
        assert forall|q: Seq<u8>| q.len() == 20 && #[trigger] self.is_poster(db, q) implies ps.contains(q) by {
            let k = set.index_in(db, q);
            assert(set.member_word(db, k) == address_word(q));
            crate::storage::law_address_word_roundtrip(q);
            assert(ps[k - 1] == q);
        }
    }

    /// Whether the stored table is consistent: a consistent set of posters.
    pub open spec fn valid(&self, db: InMemoryDB) -> bool {
        &&& self.inv()
        &&& self.addrs().valid(db)
    }

    /// Whether one more poster fits the set's size counter.
    pub open spec fn has_room(&self, db: InMemoryDB) -> bool {
        self.addrs().size_in(db) + 1 < u64_max()
    }

    /// Whether `db2` differs from `db1` at most in the table's slots.
    pub open spec fn footprint_only(&self, db1: InMemoryDB, db2: InMemoryDB) -> bool {
        &&& db_balances(db2) == db_balances(db1)
        &&& forall|acc: Seq<u8>, s: int|
            !(acc == self.account() && self.in_footprint(s)) ==> #[trigger] slot_value(db2, acc, s) == slot_value(
                db1,
                acc,
                s,
            )
    }

    /// Stores a zero total and an empty set of posters in the space `storage`.
    pub fn initialize(storage: &Storage<B>, db: &mut InMemoryDB)
        where
            B: Clone,
        ensures
            db_two_written(
                *old(db),
                *final(db),
                storage.account.bytes@,
                storage.slot(0),
                0,
                slot_of(sub_storage_key(storage.storage_key@, seq![0u8]), 0),
                0,
            ),
    {
        let mut total_funds_due = storage.open_storage_backed_big_int(TOTAL_FUNDS_DUE_OFFSET);
        total_funds_due.set_checked(db, I256::zero());
        let id: [u8; 1] = [0u8];
        let mut poster_addrs_storage = storage.open_cached_sub_storage(&id);
        assert(id@ =~= seq![0u8]);
        AddressSet::initialize(&mut poster_addrs_storage, db);
    }

    /// The table kept in the space `storage`: the total at offset 0, the set
    /// of posters in child space `[0]`, the entries in child space `[1]`.
    pub fn open(storage: &Storage<B>) -> (r: Self)
        where
            B: Clone,
        ensures
            r.account() == storage.account.bytes@,
            r.total_slot() == storage.slot(0),
            r.info_key() == sub_storage_key(storage.storage_key@, seq![1u8]),
            r.addrs().account() == storage.account.bytes@,
            r.addrs().backing_key() == sub_storage_key(storage.storage_key@, seq![0u8]),
            r.addrs().index_key() == sub_storage_key(sub_storage_key(storage.storage_key@, seq![0u8]), seq![0u8]),
            r.no_collision() ==> r.inv(),
    {
        let id0: [u8; 1] = [0u8];
        let id1: [u8; 1] = [1u8];
        assert(id0@ =~= seq![0u8]);
        assert(id1@ =~= seq![1u8]);
        BatchPostersTable {
            poster_addrs: AddressSet::new(storage.open_cached_sub_storage(&id0)),
            poster_info: storage.open_sub_storage(&id1),
            total_funds_due: storage.open_storage_backed_big_int(TOTAL_FUNDS_DUE_OFFSET),
        }
    }

    /// The entry of `poster`.
    fn internal_open(&self, poster: Address) -> (r: BatchPosterState<B>)
        where
            B: Clone,
        requires
            self.inv(),
        ensures
            r.inv(),
            r.account() == self.account(),
            r.due_slot() == self.due_slot(poster.bytes@),
            r.pay_to_slot() == self.pay_to_slot(poster.bytes@),
            r.total_slot() == self.total_slot(),
    {
        let bp_storage = self.poster_info.open_sub_storage(&poster.bytes);
        BatchPosterState {
            funds_due: bp_storage.open_storage_backed_big_int(0),
            pay_to: bp_storage.open_storage_backed_address(1),
            table_total_funds_due: self.total_funds_due.duplicate(),
        }
    }

    /// Whether `poster` is a poster.
    pub fn contains_poster(&self, db: &InMemoryDB, poster: Address) -> (r: bool)
        requires
            self.inv(),
        ensures
            r == self.is_poster(*db, poster.bytes@),
    {
        self.poster_addrs.is_member(db, poster)
    }

    /// Adds `poster_address`, owed nothing and paid at `pay_to`; refused
    /// where it is already a poster.
    pub fn add_poster(&mut self, db: &mut InMemoryDB, poster_address: Address, pay_to: Address) -> (r: Result<
        BatchPosterState<B>,
        OpenPosterResult<Infallible>,
    >)
        where
            B: Clone,
        requires
            old(self).valid(*old(db)),
            old(self).has_room(*old(db)),
        ensures
            *final(self) == *old(self),
            match r {
                Ok(st) => {
                    &&& !old(self).is_poster(*old(db), poster_address.bytes@)
                    &&& st.inv()
                    &&& st.account() == old(self).account()
                    &&& st.due_slot() == old(self).due_slot(poster_address.bytes@)
                    &&& st.pay_to_slot() == old(self).pay_to_slot(poster_address.bytes@)
                    &&& st.total_slot() == old(self).total_slot()
                    &&& old(self).added_poster(*old(db), *final(db), poster_address.bytes@, pay_to.bytes@)
                },
                Err(e) => e == OpenPosterResult::<Infallible>::Semantic(BatchPosterError::AlreadyExists)
                    && old(self).is_poster(*old(db), poster_address.bytes@) && *final(db) == *old(db),
            },
    {
        if self.poster_addrs.is_member(db, poster_address) {
            return Err(OpenPosterResult::Semantic(BatchPosterError::AlreadyExists));
        }
        let ghost db0 = *db;
        let ghost p = poster_address.bytes@;
        let mut bp_state = self.internal_open(poster_address);
        bp_state.funds_due.set_checked(db, I256::zero());
        let ghost db1 = *db;
        bp_state.pay_to.set(db, pay_to);
        let ghost db2 = *db;
        proof {
            let set = self.addrs();
            assert(!self.in_set_footprint(self.due_slot(p)));
            assert(!self.in_set_footprint(self.pay_to_slot(p)));
            assert(set.size_in(db2) == set.size_in(db0)) by {
                assert(slot_of(set.backing_key(), 0) != self.due_slot(p));
                assert(slot_of(set.backing_key(), 0) != self.pay_to_slot(p));
            }
            assert forall|i: int| 0 <= i <= u64_max() implies #[trigger] set.member_word(db2, i) == set.member_word(db0, i) by {
                assert(slot_of(set.backing_key(), i) != self.due_slot(p));
                assert(slot_of(set.backing_key(), i) != self.pay_to_slot(p));
            }
            assert forall|a: Seq<u8>| a.len() == 20 implies #[trigger] set.index_in(db2, a) == set.index_in(db0, a) by {
                assert(slot_of(set.index_key(), address_word(a)) != self.due_slot(p));
                assert(slot_of(set.index_key(), address_word(a)) != self.pay_to_slot(p));
            }
            assert(set.members(db2) =~= set.members(db0));
            assert(!set.contains(db2, p));
        }
        self.poster_addrs.add(db, poster_address);
        proof {
            let set = self.addrs();
            assert(slot_value(*db, self.account(), self.due_slot(p)) == 0);
            assert(slot_value(*db, self.account(), self.pay_to_slot(p)) == address_word(pay_to.bytes@));
            crate::storage::law_address_word_roundtrip(pay_to.bytes@);
            assert forall|acc: Seq<u8>, s: int|
                !(acc == self.account() && self.in_footprint(s)) implies #[trigger] slot_value(*db, acc, s)
                    == slot_value(db0, acc, s) by {
                if acc == self.account() {
                    assert(s != self.due_slot(p));
                    assert(s != self.pay_to_slot(p));
                }
                assert(slot_value(db2, acc, s) == slot_value(db0, acc, s));
            }
            assert forall|q: Seq<u8>| q.len() == 20 && q != p implies #[trigger] self.due_in(*db, q) == self.due_in(db0, q)
                && self.pay_to_in(*db, q) == self.pay_to_in(db0, q) by {
                assert(!self.in_set_footprint(self.due_slot(q)));
                assert(!self.in_set_footprint(self.pay_to_slot(q)));
                assert(slot_value(db2, self.account(), self.due_slot(q)) == slot_value(db0, self.account(), self.due_slot(q)));
                assert(slot_value(db2, self.account(), self.pay_to_slot(q)) == slot_value(db0, self.account(), self.pay_to_slot(q)));
            }
            assert(self.total_in(*db) == self.total_in(db0)) by {
                assert(!self.in_set_footprint(self.total_slot()));
                assert(slot_value(db2, self.account(), self.total_slot()) == slot_value(db0, self.account(), self.total_slot()));
            }
        }
        Ok(bp_state)
    }

    /// The entry of `poster`. Where `poster` is not a poster it is added
    /// (paid at its own address) if `create_if_not_exist`, refused otherwise.
    pub fn open_poster(&mut self, db: &mut InMemoryDB, poster: Address, create_if_not_exist: bool) -> (r: Result<
        BatchPosterState<B>,
        OpenPosterResult<Infallible>,
    >)
        where
            B: Clone,
        requires
            old(self).valid(*old(db)),
            create_if_not_exist ==> old(self).has_room(*old(db)),
        ensures
            *final(self) == *old(self),
            match r {
                Ok(st) => {
                    &&& st.inv()
                    &&& st.account() == old(self).account()
                    &&& st.due_slot() == old(self).due_slot(poster.bytes@)
                    &&& st.pay_to_slot() == old(self).pay_to_slot(poster.bytes@)
                    &&& st.total_slot() == old(self).total_slot()
                    &&& old(self).is_poster(*old(db), poster.bytes@) ==> *final(db) == *old(db)
                    &&& !old(self).is_poster(*old(db), poster.bytes@) ==> create_if_not_exist
                        && old(self).added_poster(*old(db), *final(db), poster.bytes@, poster.bytes@)
                },
                Err(e) => e == OpenPosterResult::<Infallible>::Semantic(BatchPosterError::NotExist)
                    && !old(self).is_poster(*old(db), poster.bytes@) && !create_if_not_exist && *final(db)
                    == *old(db),
            },
    {
        let is_batch_poster = self.poster_addrs.is_member(db, poster);
        if !is_batch_poster {
            if !create_if_not_exist {
                return Err(OpenPosterResult::Semantic(BatchPosterError::NotExist));
            }
            return self.add_poster(db, poster, poster);
        }
        Ok(self.internal_open(poster))
    }

    /// The first `min(n, max_num_to_get)` posters in stored order.
    pub fn all_posters(&mut self, db: &InMemoryDB, max_num_to_get: u64) -> (r: Vec<Address>)
        requires
            old(self).valid(*db),
        ensures
            *final(self) == *old(self),
            r@.len() == if old(self).posters(*db).len() < max_num_to_get {
                old(self).posters(*db).len() as int
            } else {
                max_num_to_get as int
            },
            forall|i: int| 0 <= i < r@.len() ==> #[trigger] r@[i].bytes@ == old(self).posters(*db)[i],
    {
        self.poster_addrs.all_members(db, max_num_to_get)
    }

    /// The total owed to all posters.
    pub fn total_funds_due(&self, db: &InMemoryDB) -> (r: I256)
        requires
            self.inv(),
        ensures
            r.value() == self.total_in(*db),
    {
        self.total_funds_due.get(db)
    }

    /// The posters owed a positive amount among `ps`, in order, with what they are owed.
    pub open spec fn positive_dues(&self, db: InMemoryDB, ps: Seq<Seq<u8>>) -> Seq<(Seq<u8>, int)>
        decreases ps.len(),
    {
        if ps.len() == 0 {
            Seq::empty()
        } else {
            let rest = self.positive_dues(db, ps.drop_last());
            if self.due_in(db, ps.last()) > 0 {
                rest.push((ps.last(), self.due_in(db, ps.last())))
            } else {
                rest
            }
        }
    }

    /// Every poster owed a positive amount, in stored order, with the amount.
    pub fn get_funds_due_list(&mut self, db: &mut InMemoryDB) -> (r: Result<Vec<FundsDueItem>, OpenPosterResult<Infallible>>)
        where
            B: Clone,
        requires
            old(self).valid(*old(db)),
        ensures
            *final(self) == *old(self),
            *final(db) == *old(db),
            match r {
                Ok(v) => {
                    let list = old(self).positive_dues(*old(db), old(self).posters(*old(db)));
                    &&& v@.len() == list.len()
                    &&& forall|i: int| 0 <= i < v@.len() ==> (#[trigger] v@[i]).due_to.bytes@ == list[i].0
                        && v@[i].balance.value() == list[i].1
                },
                Err(_) => false,
            },
    {
        let ghost db0 = *db;
        let ghost t0 = *self;
        let all_posters = self.all_posters(db, u64::MAX);
        let ghost ps = t0.posters(db0);
        proof {
            assert(ps.len() == t0.addrs().size_in(db0));
        }
        let mut ret: Vec<FundsDueItem> = Vec::new();
        let mut i: usize = 0;
        while i < all_posters.len()
            invariant
                i <= all_posters@.len(),
                all_posters@.len() == ps.len(),
                ps == t0.posters(db0),
                forall|j: int| 0 <= j < all_posters@.len() ==> #[trigger] all_posters@[j].bytes@ == ps[j],
                *db == db0,
                *self == t0,
                t0.valid(db0),
                ({
                    let list = t0.positive_dues(db0, ps.take(i as int));
                    &&& ret@.len() == list.len()
                    &&& forall|j: int| 0 <= j < ret@.len() ==> (#[trigger] ret@[j]).due_to.bytes@ == list[j].0
                        && ret@[j].balance.value() == list[j].1
                }),
            decreases all_posters@.len() - i,
        {
            let poster_addr = all_posters[i];
            proof {
                let set = t0.addrs();
                let w = set.member_word(db0, i + 1);
                assert(ps[i as int] == crate::storage::word_address(w));
                assert(set.index_in(db0, ps[i as int]) == i + 1);
                assert(poster_addr.bytes@ == ps[i as int]);
                assert(t0.is_poster(db0, poster_addr.bytes@));
                assert(ps.take(i + 1).drop_last() =~= ps.take(i as int));
            }
            let poster = match self.open_poster(db, poster_addr, false) {
                Ok(st) => st,
                Err(e) => {
                    return Err(e);
                },
            };
            let due = poster.funds_due(db);
            proof {
                lemma_i256_raw(due);
            }
            if due.is_positive() {
                ret.push(FundsDueItem { due_to: poster_addr, balance: due });
            }
            i += 1;
        }
        proof {
            assert(ps.take(all_posters@.len() as int) =~= ps);
        }
        Ok(ret)
    }

    /// Whether `db2` is `db1` with poster `p` added, owed nothing and paid at
    /// `pay_to`, and nothing else of the table changed.
    pub open spec fn added_poster(&self, db1: InMemoryDB, db2: InMemoryDB, p: Seq<u8>, pay_to: Seq<u8>) -> bool {
        &&& self.valid(db2)
        &&& self.posters(db2) == self.posters(db1).push(p)
        &&& self.is_poster(db2, p)
        &&& self.due_in(db2, p) == 0
        &&& self.pay_to_in(db2, p) == pay_to
        &&& self.total_in(db2) == self.total_in(db1)
        &&& forall|q: Seq<u8>| q.len() == 20 && q != p ==> #[trigger] self.due_in(db2, q) == self.due_in(db1, q)
            && self.pay_to_in(db2, q) == self.pay_to_in(db1, q)
        &&& self.footprint_only(db1, db2)
    }
}

impl<B: Burner> BatchPostersTable<B> {
    /// The sum of what the posters `ps` are owed.
    pub open spec fn dues_sum(&self, db: InMemoryDB, ps: Seq<Seq<u8>>) -> int
        decreases ps.len(),
    {
        if ps.len() == 0 {
            0
        } else {
            self.dues_sum(db, ps.drop_last()) + self.due_in(db, ps.last())
        }
    }

    /// Where only poster `p`'s amount changes, from `prev` to `val`, the sum
    /// over distinct posters moves by the difference where `p` is among them.
    proof fn lemma_dues_sum_one_changed(&self, db1: InMemoryDB, db2: InMemoryDB, ps: Seq<Seq<u8>>, p: Seq<u8>)
        requires
            forall|i: int| 0 <= i < ps.len() ==> (#[trigger] ps[i]).len() == 20,
            forall|i: int, j: int| 0 <= i < j < ps.len() ==> #[trigger] ps[i] != #[trigger] ps[j],
            forall|q: Seq<u8>| q.len() == 20 && q != p ==> #[trigger] self.due_in(db2, q) == self.due_in(db1, q),
        ensures
            self.dues_sum(db2, ps) == self.dues_sum(db1, ps) + if ps.contains(p) {
                self.due_in(db2, p) - self.due_in(db1, p)
            } else {
                0
            },
        decreases ps.len(),
    {
        if ps.len() > 0 {
            let rest = ps.drop_last();
            assert forall|i: int, j: int| 0 <= i < j < rest.len() implies #[trigger] rest[i] != #[trigger] rest[j] by {
                assert(rest[i] == ps[i] && rest[j] == ps[j]);
            }
            assert forall|i: int| 0 <= i < rest.len() implies (#[trigger] rest[i]).len() == 20 by {
                assert(rest[i] == ps[i]);
            }
            self.lemma_dues_sum_one_changed(db1, db2, rest, p);
            let l = ps.last();
            assert(l == ps[ps.len() - 1]);
            if l == p {
                assert(!rest.contains(p)) by {
                    if rest.contains(p) {
                        let k = choose|k: int| 0 <= k < rest.len() && rest[k] == p;
                        assert(ps[k] == ps[ps.len() - 1]);
                    }
                }
                assert(ps.contains(p));
            } else {
                assert(ps.contains(p) == rest.contains(p)) by {
                    if ps.contains(p) {
                        let k = choose|k: int| 0 <= k < ps.len() && ps[k] == p;
                        assert(rest[k] == p);
                    }
                    if rest.contains(p) {
                        let k = choose|k: int| 0 <= k < rest.len() && rest[k] == p;
                        assert(ps[k] == p);
                    }
                }
            }
        }
    }

    /// Law: setting what a poster is owed keeps the table's total equal to
    /// the sum of what its posters are owed, where that held before and no
    /// step of the new total had to be clamped; the posters stay the same.
    pub proof fn law_set_funds_due_keeps_total(&self, db1: InMemoryDB, db2: InMemoryDB, p: Seq<u8>, val: int)
        requires
            self.valid(db1),
            p.len() == 20,
            self.is_poster(db1, p),
            self.total_in(db1) == self.dues_sum(db1, self.posters(db1)),
            i256_min() <= val <= i256_max(),
            i256_min() <= self.total_in(db1) + val <= i256_max(),
            i256_min() <= self.total_in(db1) + val - self.due_in(db1, p) <= i256_max(),
            db_two_written(
                db1,
                db2,
                self.account(),
                self.total_slot(),
                i256_raw(adjusted_total(self.total_in(db1), val, self.due_in(db1, p))),
                self.due_slot(p),
                i256_raw(val),
            ),
        ensures
            self.valid(db2),
            self.posters(db2) == self.posters(db1),
            self.due_in(db2, p) == val,
            self.total_in(db2) == self.dues_sum(db2, self.posters(db2)),
    {
        let ik = self.info_key();
        let ts = self.total_slot();
        let acct = self.account();
        assert(self.no_collision());
        assert forall|s: int| self.in_set_footprint(s) implies #[trigger] slot_value(db2, acct, s) == slot_value(db1, acct, s) by {
            assert(s != ts);
            assert(s != entry_due_slot(ik, p));
        }
        self.lemma_set_kept(db1, db2);
        assert forall|q: Seq<u8>| q.len() == 20 && q != p implies #[trigger] self.due_in(db2, q) == self.due_in(db1, q) by {
            assert(entry_due_slot(ik, q) != entry_due_slot(ik, p));
            assert(entry_due_slot(ik, q) != ts);
        }
        self.lemma_posters(db1);
        let ps = self.posters(db1);
        assert forall|i: int, j: int| 0 <= i < j < ps.len() implies #[trigger] ps[i] != #[trigger] ps[j] by {}
        self.lemma_dues_sum_one_changed(db1, db2, ps, p);
        assert(entry_due_slot(ik, p) != ts);
    }

    /// Law: setting what a poster is owed through its entry (the state that
    /// `open_poster` hands out) keeps the table's total equal to the sum of
    /// what its posters are owed, where that held before and no step of the
    /// new total had to be clamped; the poster is then owed `val`.
    pub proof fn law_poster_set_funds_due_keeps_total(
        &self,
        st: BatchPosterState<B>,
        db1: InMemoryDB,
        db2: InMemoryDB,
        p: Seq<u8>,
        val: I256,
    )
        requires
            self.valid(db1),
            p.len() == 20,
            self.is_poster(db1, p),
            st.account() == self.account(),
            st.due_slot() == self.due_slot(p),
            st.total_slot() == self.total_slot(),
            self.total_in(db1) == self.dues_sum(db1, self.posters(db1)),
            i256_min() <= self.total_in(db1) + val.value() <= i256_max(),
            i256_min() <= self.total_in(db1) + val.value() - self.due_in(db1, p) <= i256_max(),
            db_two_written(
                db1,
                db2,
                st.account(),
                st.total_slot(),
                i256_raw(
                    adjusted_total(
                        i256_of(slot_value(db1, st.account(), st.total_slot())),
                        val.value(),
                        i256_of(slot_value(db1, st.account(), st.due_slot())),
                    ),
                ),
                st.due_slot(),
                val.raw.value(),
            ),
        ensures
            self.posters(db2) == self.posters(db1),
            self.due_in(db2, p) == val.value(),
            self.total_in(db2) == self.dues_sum(db2, self.posters(db2)),
    {
        lemma_i256_raw(val);
        self.law_set_funds_due_keeps_total(db1, db2, p, val.value());
    }

    /// Law: adding a poster keeps the table's total equal to the sum of what
    /// its posters are owed, where that held before.
    pub proof fn law_add_poster_keeps_total(&self, db1: InMemoryDB, db2: InMemoryDB, p: Seq<u8>, pay_to: Seq<u8>)
        requires
            self.valid(db1),
            p.len() == 20,
            !self.is_poster(db1, p),
            self.total_in(db1) == self.dues_sum(db1, self.posters(db1)),
            self.added_poster(db1, db2, p, pay_to),
        ensures
            self.total_in(db2) == self.dues_sum(db2, self.posters(db2)),
    {
        self.lemma_posters(db1);
        let ps = self.posters(db1);
        self.addrs().law_members_match_contains(db1, p);
        assert forall|i: int, j: int| 0 <= i < j < ps.len() implies #[trigger] ps[i] != #[trigger] ps[j] by {}
        self.lemma_dues_sum_one_changed(db1, db2, ps, p);
        assert(ps.push(p).drop_last() =~= ps);
    }
}

} // verus!
