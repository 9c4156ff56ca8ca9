//! A set of addresses kept in storage: its size at offset 0, its members at
//! offsets 1..=size, and for each member its offset in a child space keyed
//! by the member's word.
use vstd::prelude::*;

use revm::database::InMemoryDB;

use crate::burn::Burner;
use crate::multigas::u64_max;
use crate::statedb::{db_balances, slot_value};
use crate::storage::{
    address_to_word, address_word, nil_address_word, slot_of, sub_storage_key, word_address, word_to_address,
    Storage, StorageBackedUint64,
};
use crate::word::{Address, U256};

verus! {

/// A set of addresses kept in storage.
pub struct AddressSet<B: Burner> {
    backing_storage: Storage<B>,
    size: StorageBackedUint64<B>,
    by_address: Storage<B>,
}

/// Why repairing a member's offset was refused.
#[derive(Clone, Copy, Debug, PartialEq, Eq, Structural)]
pub enum RectifyError {
    /// The address is no member.
    NotAnOwner,
    /// The member's offset already points at it.
    CorrectlyMapped,
}

impl RectifyError {
    /// The error's text.
    pub fn message(&self) -> (r: &'static str)
        ensures
            r == match *self {
                RectifyError::NotAnOwner => "RectifyMapping: Address is not an owner",
                RectifyError::CorrectlyMapped => "RectifyMapping: Owner address is correctly mapped",
            },
    {
        match self {
            RectifyError::NotAnOwner => "RectifyMapping: Address is not an owner",
            RectifyError::CorrectlyMapped => "RectifyMapping: Owner address is correctly mapped",
        }
    }
}

/// The word of an address lies below the nil word 2^255.
pub proof fn lemma_address_word_below_nil(a: Seq<u8>)
    requires
        a.len() == 20,
    ensures
        0 <= address_word(a) < nil_address_word(),
{
    crate::arbsys::lemma_be_zeros_prefix(12, a);
    crate::arbsys::lemma_be_bound(a);
    reveal_with_fuel(crate::poster_cost::pow256, 21);
    assert(crate::poster_cost::pow256(20) == 0x1_0000_0000_0000_0000_0000_0000_0000_0000_0000_0000int);
}

/// Whether `db2` differs from `db1` at most in slots of `account` that are
/// offsets of the space `bk` or address keys of the space `ak`.
pub open spec fn set_footprint_only(db1: InMemoryDB, db2: InMemoryDB, account: Seq<u8>, bk: Seq<u8>, ak: Seq<u8>) -> bool {
    &&& db_balances(db2) == db_balances(db1)
    &&& forall|acc: Seq<u8>, s: int|
        !(acc == account && (exists|i: int| 0 <= i <= u64_max() && s == slot_of(bk, i)) || acc == account
            && (exists|a: Seq<u8>| a.len() == 20 && s == slot_of(ak, address_word(a))))
            ==> #[trigger] slot_value(db2, acc, s) == slot_value(db1, acc, s)
}

/// The slots of a set whose members are kept in space `bk` and whose offsets
/// are kept in space `ak` are pairwise distinct (they are unless keccak256
/// collides).
pub open spec fn set_keys_no_collision(bk: Seq<u8>, ak: Seq<u8>) -> bool {
    &&& forall|i: int, j: int|
        0 <= i <= u64_max() && 0 <= j <= u64_max() && i != j ==> #[trigger] slot_of(bk, i) != #[trigger] slot_of(bk, j)
    &&& forall|a: Seq<u8>, b: Seq<u8>|
        a.len() == 20 && b.len() == 20 && a != b ==> #[trigger] slot_of(ak, address_word(a)) != #[trigger] slot_of(
            ak,
            address_word(b),
        )
    &&& forall|i: int, a: Seq<u8>|
        0 <= i <= u64_max() && a.len() == 20 ==> #[trigger] slot_of(bk, i) != #[trigger] slot_of(ak, address_word(a))
}

impl<B: Burner> AddressSet<B> {
    /// The account whose storage holds the set.
    pub closed spec fn account(&self) -> Seq<u8> {
        self.backing_storage.account.bytes@
    }

    /// The key of the space with the size and the members.
    pub closed spec fn backing_key(&self) -> Seq<u8> {
        self.backing_storage.storage_key@
    }

    /// The key of the space with each member's offset.
    pub closed spec fn index_key(&self) -> Seq<u8> {
        self.by_address.storage_key@
    }

    /// The stored size.
    pub open spec fn size_in(&self, db: InMemoryDB) -> int {
        slot_value(db, self.account(), slot_of(self.backing_key(), 0))
    }

    /// The word at member offset `i` (counted from 1).
    pub open spec fn member_word(&self, db: InMemoryDB, i: int) -> int {
        slot_value(db, self.account(), slot_of(self.backing_key(), i))
    }

    /// The stored offset of address `a` (0 where it is no member).
    pub open spec fn index_in(&self, db: InMemoryDB, a: Seq<u8>) -> int {
        slot_value(db, self.account(), slot_of(self.index_key(), address_word(a)))
    }

    /// The members in stored order.
    pub open spec fn members(&self, db: InMemoryDB) -> Seq<Seq<u8>> {
        Seq::new(self.size_in(db) as nat, |i: int| word_address(self.member_word(db, i + 1)))
    }

    /// Whether `a` is a member.
    pub open spec fn contains(&self, db: InMemoryDB, a: Seq<u8>) -> bool {
        self.index_in(db, a) != 0
    }

    /// The slots that the set uses are pairwise distinct (they are unless
    /// keccak256 collides).
    pub open spec fn no_collision(&self) -> bool {
        set_keys_no_collision(self.backing_key(), self.index_key())
    }

    /// How the set's parts fit together, whatever the storage holds.
    pub closed spec fn inv(&self) -> bool {
        &&& self.size.account_view() == self.account()
        &&& self.size.slot_view() == slot_of(self.backing_key(), 0)
        &&& self.by_address.account == self.backing_storage.account
        &&& self.no_collision()
    }

    /// Whether the stored set is consistent: a size below `u64::MAX`, every
    /// member an address word whose stored offset is its own, and every
    /// address with an offset a member there.
    pub open spec fn valid(&self, db: InMemoryDB) -> bool {
        &&& self.inv()
        &&& 0 <= self.size_in(db) < u64_max()
        &&& forall|i: int|
            1 <= i <= self.size_in(db) ==> address_word(word_address(#[trigger] self.member_word(db, i)))
                == self.member_word(db, i) && word_address(self.member_word(db, i)).len() == 20
        &&& forall|i: int|
            1 <= i <= self.size_in(db) ==> self.index_in(db, word_address(#[trigger] self.member_word(db, i)))
                == i
        &&& forall|a: Seq<u8>|
            a.len() == 20 && #[trigger] self.index_in(db, a) != 0 ==> 1 <= self.index_in(db, a)
                <= self.size_in(db) && self.member_word(db, self.index_in(db, a)) == address_word(a)
    }

    /// Law: in a consistent set, an address is a member exactly where it
    /// appears among the members, and the members are distinct.
    pub proof fn law_members_match_contains(&self, db: InMemoryDB, a: Seq<u8>)
        requires
            self.valid(db),
            a.len() == 20,
        ensures
            self.contains(db, a) <==> self.members(db).contains(a),
            forall|i: int, j: int|
                0 <= i < j < self.members(db).len() ==> #[trigger] self.members(db)[i] != #[trigger] self.members(
                    db,
                )[j],
    {
        let ms = self.members(db);
        if self.contains(db, a) {
            let k = self.index_in(db, a);
            assert(self.member_word(db, k) == address_word(a));
            crate::storage::law_address_word_roundtrip(a);
            assert(ms[k - 1] == a);
        }
        if ms.contains(a) {
            let j = choose|j: int| 0 <= j < ms.len() && ms[j] == a;
            assert(self.index_in(db, word_address(self.member_word(db, j + 1))) == j + 1);
        }
        assert forall|i: int, j: int| 0 <= i < j < ms.len() implies #[trigger] ms[i] != #[trigger] ms[j] by {
            assert(self.index_in(db, word_address(self.member_word(db, i + 1))) == i + 1);
            assert(self.index_in(db, word_address(self.member_word(db, j + 1))) == j + 1);
        }
    }

    /// Two well-formed sets kept in the same place read the same from any storage.
    pub proof fn lemma_same_place(&self, other: &Self, db: InMemoryDB)
        requires
            self.inv(),
            other.inv(),
            self.account() == other.account(),
            self.backing_key() == other.backing_key(),
            self.index_key() == other.index_key(),
        ensures
            self.valid(db) == other.valid(db),
            self.members(db) == other.members(db),
            self.size_in(db) == other.size_in(db),
            forall|a: Seq<u8>| #[trigger] self.contains(db, a) == other.contains(db, a),
            forall|a: Seq<u8>| #[trigger] self.index_in(db, a) == other.index_in(db, a),
            forall|i: int| #[trigger] self.member_word(db, i) == other.member_word(db, i),
    {
        assert forall|i: int| #[trigger] self.member_word(db, i) == other.member_word(db, i) by {}
        assert forall|a: Seq<u8>| #[trigger] self.index_in(db, a) == other.index_in(db, a) by {}
        assert(self.members(db) =~= other.members(db));
        if other.valid(db) {
            self.lemma_valid_transfer(db, other, db);
        }
        if self.valid(db) {
            other.lemma_valid_transfer(db, self, db);
        }
    }

    /// A set whose stored words read as those of a consistent set is consistent.
    proof fn lemma_valid_transfer(&self, db: InMemoryDB, other: &Self, db_o: InMemoryDB)
        requires
            self.inv(),
            other.valid(db_o),
            self.size_in(db) == other.size_in(db_o),
            forall|i: int| 0 <= i <= u64_max() ==> #[trigger] self.member_word(db, i) == other.member_word(db_o, i),
            forall|a: Seq<u8>| a.len() == 20 ==> #[trigger] self.index_in(db, a) == other.index_in(db_o, a),
        ensures
            self.valid(db),
    {
        assert forall|i: int| 1 <= i <= self.size_in(db) implies address_word(
            word_address(#[trigger] self.member_word(db, i)),
        ) == self.member_word(db, i) && word_address(self.member_word(db, i)).len() == 20 by {
            assert(other.member_word(db_o, i) == self.member_word(db, i));
        }
        assert forall|i: int| 1 <= i <= self.size_in(db) implies self.index_in(
            db,
            word_address(#[trigger] self.member_word(db, i)),
        ) == i by {
            let w = self.member_word(db, i);
            assert(other.member_word(db_o, i) == w);
            assert(other.index_in(db_o, word_address(w)) == i);
            assert(self.index_in(db, word_address(w)) == other.index_in(db_o, word_address(w)));
        }
        assert forall|a: Seq<u8>| a.len() == 20 && #[trigger] self.index_in(db, a) != 0 implies 1 <= self.index_in(
            db,
            a,
        ) <= self.size_in(db) && self.member_word(db, self.index_in(db, a)) == address_word(a) by {
            let k = self.index_in(db, a);
            assert(other.index_in(db_o, a) == k);
            assert(other.member_word(db_o, k) == self.member_word(db, k));
        }
    }

    /// A set reads the same from two storages that agree on its slots.
    pub proof fn lemma_slots_kept(&self, db1: InMemoryDB, db2: InMemoryDB)
        requires
            self.inv(),
            forall|i: int| 0 <= i <= u64_max() ==> #[trigger] self.member_word(db2, i) == self.member_word(db1, i),
            forall|a: Seq<u8>| a.len() == 20 ==> #[trigger] self.index_in(db2, a) == self.index_in(db1, a),
        ensures
            self.valid(db1) == self.valid(db2),
            0 <= self.size_in(db1) < u64_max() ==> self.members(db1) == self.members(db2),
            self.size_in(db1) == self.size_in(db2),
            forall|a: Seq<u8>| a.len() == 20 ==> #[trigger] self.contains(db2, a) == self.contains(db1, a),
    {
        assert(self.member_word(db2, 0) == self.member_word(db1, 0));
        if 0 <= self.size_in(db1) < u64_max() {
            assert forall|i: int| 0 <= i < self.members(db1).len() implies #[trigger] self.members(db1)[i]
                == self.members(db2)[i] by {
                assert(i + 1 <= u64_max());
                assert(self.member_word(db2, i + 1) == self.member_word(db1, i + 1));
            }
            assert(self.members(db1) =~= self.members(db2));
        }
        if self.valid(db1) {
            self.lemma_valid_transfer(db2, self, db1);
        }
        if self.valid(db2) {
            self.lemma_valid_transfer(db1, self, db2);
        }
    }

    /// The set kept in the space `sto`: size and members there, offsets in its child space `[0]`.
    pub fn new(sto: Storage<B>) -> (r: Self)
        where
            B: Clone,
        ensures
            r.account() == sto.account.bytes@,
            r.backing_key() == sto.storage_key@,
            r.index_key() == sub_storage_key(sto.storage_key@, seq![0u8]),
            r.no_collision() ==> r.inv(),
    {
        let size = sto.open_storage_backed_uint64(0);
        let id: [u8; 1] = [0u8];
        let by_address = sto.open_sub_storage(&id);
        assert(id@ =~= seq![0u8]);
        AddressSet { backing_storage: sto, size, by_address }
    }

    /// Makes the set in `sto` empty by storing size zero.
    pub fn initialize(sto: &mut Storage<B>, db: &mut InMemoryDB)
        where
            B: Clone,
        ensures
            *final(sto) == *old(sto),
            crate::statedb::db_slot_written(*old(db), *final(db), old(sto).account.bytes@, old(sto).slot(0), 0),
    {
        sto.set_uint64_by_uint64(db, 0, 0)
    }

    /// The number of members.
    pub fn size(&mut self, db: &InMemoryDB) -> (r: u64)
        requires
            old(self).valid(*db),
        ensures
            *final(self) == *old(self),
            r == old(self).size_in(*db),
    {
        self.size.get(db)
    }

    /// Whether `addr` is a member.
    pub fn is_member(&self, db: &InMemoryDB, addr: Address) -> (r: bool)
        requires
            self.inv(),
        ensures
            r == self.contains(*db, addr.bytes@),
    {
        let key = address_to_word(addr);
        let value = self.by_address.get_by_key(db, key);
        !value.is_zero()
    }

    /// Some member: the first stored, or `None` for an empty set or where
    /// the first member slot holds the nil word (2^255). In a consistent
    /// set every member is an address, so a non-empty one gives its first.
    pub fn get_any_member(&mut self, db: &InMemoryDB) -> (r: Option<Address>)
        requires
            old(self).valid(*db),
        ensures
            *final(self) == *old(self),
            match r {
                None => old(self).size_in(*db) == 0 || old(self).member_word(*db, 1) == nil_address_word(),
                Some(a) => old(self).size_in(*db) > 0 && old(self).member_word(*db, 1) != nil_address_word()
                    && a.bytes@ == word_address(old(self).member_word(*db, 1)),
            },
            old(self).size_in(*db) > 0 ==> (r matches Some(a) && a.bytes@ == old(self).members(*db)[0]),
    {
        if self.size.get(db) == 0 {
            return None;
        }
        let raw = self.backing_storage.read_slot(db, 1);
        let nil = U256 { l0: 0, l1: 0, l2: 0, l3: 0x8000_0000_0000_0000 };
        proof {
            assert(nil.value() == nil_address_word());
            let mw = self.member_word(*db, 1);
            let a = word_address(mw);
            assert(address_word(a) == mw && a.len() == 20);
            lemma_address_word_below_nil(a);
        }
        if raw.equals(&nil) {
            return None;
        }
        Some(word_to_address(raw))
    }

    /// The first `min(size, max)` members in stored order.
    pub fn all_members(&mut self, db: &InMemoryDB, max: u64) -> (r: Vec<Address>)
        requires
            old(self).valid(*db),
        ensures
            *final(self) == *old(self),
            r@.len() == if old(self).size_in(*db) < max { old(self).size_in(*db) } else { max as int },
            forall|i: int| 0 <= i < r@.len() ==> #[trigger] r@[i].bytes@ == old(self).members(*db)[i],
    {
        let sz = self.size.get(db);
        let count = if sz < max { sz } else { max };
        let mut members: Vec<Address> = Vec::new();
        let mut i: u64 = 0;
        while i < count
            invariant
                i <= count,
                count <= sz,
                sz == self.size_in(*db),
                members@.len() == i,
                forall|j: int| 0 <= j < i ==> #[trigger] members@[j].bytes@ == self.members(*db)[j],
            decreases count - i,
        {
            let raw = self.backing_storage.read_slot(db, i + 1);
            members.push(word_to_address(raw));
            i += 1;
        }
        members
    }

    /// The members after removing `a`: where `a` is a member at offset `k`
    /// of `n`, the last member moves to `k` and the list shrinks by one.
    pub open spec fn removed_members(&self, db: InMemoryDB, a: Seq<u8>) -> Seq<Seq<u8>> {
        let ms = self.members(db);
        let k = self.index_in(db, a);
        let n = self.size_in(db);
        if k == 0 {
            ms
        } else if k < n {
            ms.update(k - 1, ms[n - 1]).drop_last()
        } else {
            ms.drop_last()
        }
    }

    /// Law: removing an address just added to a set that did not hold it
    /// gives back the members the set had before the add.
    pub proof fn law_add_then_remove(&self, db0: InMemoryDB, db1: InMemoryDB, a: Seq<u8>)
        requires
            self.valid(db0),
            self.valid(db1),
            !self.contains(db0, a),
            self.members(db1) == self.members(db0).push(a),
            self.index_in(db1, a) == self.size_in(db0) + 1,
        ensures
            self.removed_members(db1, a) == self.members(db0),
    {
        assert(self.members(db1).len() == self.size_in(db1));
        assert(self.members(db0).push(a).drop_last() =~= self.members(db0));
    }

    /// Removes `addr`, moving the last member into its place. Before ArbOS
    /// version 11 the moved member's stored offset is not updated, so the set
    /// is only kept consistent from version 11 on or where no member moves.
    pub fn remove(&mut self, db: &mut InMemoryDB, addr: Address, arbos_version: u64)
        requires
            old(self).valid(*old(db)),
        ensures
            *final(self) == *old(self),
            final(self).members(*final(db)) == old(self).removed_members(*old(db), addr.bytes@),
            !final(self).contains(*final(db), addr.bytes@),
            arbos_version >= 11 || old(self).index_in(*old(db), addr.bytes@) == old(self).size_in(*old(db))
                || !old(self).contains(*old(db), addr.bytes@) ==> final(self).valid(*final(db)),
            set_footprint_only(*old(db), *final(db), old(self).account(), old(self).backing_key(), old(self).index_key()),
            !old(self).contains(*old(db), addr.bytes@) ==> *final(db) == *old(db),
            old(self).contains(*old(db), addr.bytes@) ==> final(self).member_word(*final(db), old(self).size_in(*old(db)))
                == 0,
    {
        let ghost db0 = *db;
        let ghost acct = self.account();
        let ghost bk = self.backing_key();
        let ghost ak = self.index_key();
        let ghost a = addr.bytes@;
        let key = address_to_word(addr);
        proof {
            assert(self.index_in(*db, a) == self.by_address.value_at(*db, key.value()));
            if self.index_in(*db, a) != 0 {
                assert(self.index_in(*db, a) <= self.size_in(*db));
            }
        }
        let slot = self.by_address.get_uint64_by_key(db, key);
        if slot == 0 {
            proof {
                assert(self.members(*db) =~= self.removed_members(db0, a));
            }
            return;
        }
        self.by_address.clear_by_key(db, key);
        let ghost db1 = *db;
        let sz = self.size.get(db);
        proof {
            assert(slot_of(ak, address_word(a)) != slot_of(bk, 0));
            assert(sz == self.size_in(db0));
        }
        let ghost m = word_address(self.member_word(db0, sz as int));
        let ghost at_word = self.member_word(db0, sz as int);
        if slot < sz {
            let at_size = self.backing_storage.read_slot(db, sz);
            proof {
                assert(slot_of(ak, address_word(a)) != slot_of(bk, sz as int));
                assert(at_size.value() == at_word);
            }
            self.backing_storage.write_slot(db, slot, at_size);
            if arbos_version >= 11 {
                self.by_address.set_by_key(db, at_size, U256::from_u64(slot));
            }
        }
        self.backing_storage.write_slot(db, sz, U256::zero());
        proof {
            let k = slot as int;
            let n = sz as int;
            assert(self.index_in(db0, a) == k);
            assert(1 <= k <= n);
            assert(self.index_in(db0, m) == n);
            assert(m.len() == 20);
            assert(slot_of(bk, 0) != slot_of(bk, n));
            assert(slot_of(bk, 0) != slot_of(bk, k));
            assert(slot_of(bk, 0) != slot_of(ak, address_word(m)));
            assert(slot_value(*db, acct, slot_of(bk, 0)) == n);
        }
        let _ = self.size.decrement(db);
        proof {
            let k = slot as int;
            let n = sz as int;
            assert(self.index_in(db0, a) == k);
            assert(1 <= k <= n);
            assert(self.member_word(db0, k) == address_word(a));
            crate::storage::law_address_word_roundtrip(a);
            assert(self.index_in(db0, m) == n);
            assert(m.len() == 20);
            assert(address_word(m) == at_word);
            if k < n {
                assert(m != a);
            }
            // the new contents, slot by slot
            assert(slot_of(bk, 0) != slot_of(bk, n));
            assert(slot_of(bk, 0) != slot_of(bk, k));
            assert(slot_of(bk, 0) != slot_of(ak, address_word(m)));
            assert(self.size_in(*db) == n - 1);
            assert forall|i: int| 1 <= i <= n - 1 implies #[trigger] self.member_word(*db, i) == if i == k { at_word } else {
                self.member_word(db0, i)
            } by {
                assert(slot_of(bk, i) != slot_of(bk, n));
                assert(slot_of(bk, i) != slot_of(bk, 0));
                assert(slot_of(bk, i) != slot_of(ak, address_word(a)));
                assert(slot_of(bk, i) != slot_of(ak, address_word(m)));
                if i != k {
                    assert(slot_of(bk, i) != slot_of(bk, k));
                }
            }
            assert(self.index_in(*db, a) == 0) by {
                assert(slot_of(ak, address_word(a)) != slot_of(bk, n));
                assert(slot_of(ak, address_word(a)) != slot_of(bk, k));
                assert(slot_of(ak, address_word(a)) != slot_of(bk, 0));
                if k < n {
                    assert(slot_of(ak, address_word(a)) != slot_of(ak, address_word(m)));
                }
            }
            assert forall|b: Seq<u8>| b.len() == 20 && b != a && b != m implies #[trigger] self.index_in(*db, b) == self.index_in(
                db0,
                b,
            ) by {
                assert(slot_of(ak, address_word(b)) != slot_of(ak, address_word(a)));
                assert(slot_of(ak, address_word(b)) != slot_of(ak, address_word(m)));
                assert(slot_of(ak, address_word(b)) != slot_of(bk, n));
                assert(slot_of(ak, address_word(b)) != slot_of(bk, k));
                assert(slot_of(ak, address_word(b)) != slot_of(bk, 0));
            }
            if k < n {
                assert(self.index_in(*db, m) == if arbos_version >= 11 { k } else { n }) by {
                    assert(slot_of(ak, address_word(m)) != slot_of(bk, n));
                    assert(slot_of(ak, address_word(m)) != slot_of(bk, k));
                    assert(slot_of(ak, address_word(m)) != slot_of(bk, 0));
                    assert(slot_of(ak, address_word(m)) != slot_of(ak, address_word(a)));
                }
            }
            assert(self.members(*db) =~= self.removed_members(db0, a)) by {
                assert forall|i: int| 0 <= i < n - 1 implies #[trigger] self.members(*db)[i] == self.removed_members(db0, a)[i] by {
                    assert(self.member_word(*db, i + 1) == if i + 1 == k { at_word } else { self.member_word(db0, i + 1) });
                }
            }
            if arbos_version >= 11 || k == n {
                assert forall|i: int|
                    1 <= i <= self.size_in(*db) implies address_word(word_address(#[trigger] self.member_word(*db, i)))
                        == self.member_word(*db, i) && word_address(self.member_word(*db, i)).len() == 20 by {
                    assert(self.member_word(*db, i) == if i == k { at_word } else { self.member_word(db0, i) });
                }
                assert forall|i: int|
                    1 <= i <= self.size_in(*db) implies self.index_in(*db, word_address(#[trigger] self.member_word(*db, i)))
                        == i by {
                    if i == k {
                        assert(self.member_word(*db, i) == at_word);
                    } else {
                        assert(self.member_word(*db, i) == self.member_word(db0, i));
                        let w = word_address(self.member_word(db0, i));
                        assert(self.index_in(db0, w) == i);
                        assert(w.len() == 20);
                        if w == a {
                            assert(false);
                        }
                        if w == m {
                            assert(false);
                        }
                    }
                }
                assert forall|b: Seq<u8>|
                    b.len() == 20 && #[trigger] self.index_in(*db, b) != 0 implies 1 <= self.index_in(*db, b)
                        <= self.size_in(*db) && self.member_word(*db, self.index_in(*db, b)) == address_word(b) by {
                    if b == a {
                    } else if b == m && k < n {
                        assert(self.member_word(*db, k) == at_word);
                    } else {
                        let j = self.index_in(db0, b);
                        assert(self.index_in(*db, b) == j);
                        assert(self.member_word(db0, j) == address_word(b));
                        if j == k {
                            assert(address_word(b) == address_word(a));
                            crate::storage::law_address_word_roundtrip(b);
                            assert(false);
                        }
                        if j == n {
                            assert(address_word(b) == address_word(m));
                            crate::storage::law_address_word_roundtrip(b);
                            assert(false);
                        }
                        assert(self.member_word(*db, j) == self.member_word(db0, j));
                    }
                }
            }
            assert(set_footprint_only(db0, *db, acct, bk, ak)) by {
                assert forall|acc: Seq<u8>, s: int|
                    !(acc == acct && (exists|i: int| 0 <= i <= u64_max() && s == slot_of(bk, i)) || acc == acct
                        && (exists|b: Seq<u8>| b.len() == 20 && s == slot_of(ak, address_word(b))))
                        implies #[trigger] slot_value(*db, acc, s) == slot_value(db0, acc, s) by {
                    if acc == acct {
                        assert(s != slot_of(bk, 0));
                        assert(s != slot_of(bk, n));
                        assert(s != slot_of(bk, k));
                        assert(s != slot_of(ak, address_word(a)));
                        assert(s != slot_of(ak, address_word(m)));
                    }
                }
            }
        }
    }

    /// Empties the set: zeroes every member, the member's stored offset and
    /// the size.
    pub fn clear(&mut self, db: &mut InMemoryDB)
        requires
            old(self).valid(*old(db)),
        ensures
            *final(self) == *old(self),
            final(self).valid(*final(db)),
            final(self).members(*final(db)) == Seq::<Seq<u8>>::empty(),
            forall|a: Seq<u8>| a.len() == 20 ==> !#[trigger] final(self).contains(*final(db), a),
            set_footprint_only(*old(db), *final(db), old(self).account(), old(self).backing_key(), old(self).index_key()),
    {
        let ghost db0 = *db;
        let ghost acct = self.account();
        let ghost bk = self.backing_key();
        let ghost ak = self.index_key();
        let sz = self.size.get(db);
        if sz == 0 {
            proof {
                assert(self.members(*db) =~= Seq::<Seq<u8>>::empty());
                assert(set_footprint_only(db0, *db, acct, bk, ak));
            }
            return;
        }
        let mut i: u64 = 1;
        while i <= sz
            invariant
                1 <= i <= sz + 1,
                sz == self.size_in(db0),
                sz < u64_max(),
                self.valid(db0),
                acct == self.account(),
                bk == self.backing_key(),
                ak == self.index_key(),
                self.size_in(*db) == sz,
                forall|j: int| 1 <= j <= sz ==> #[trigger] self.member_word(*db, j) == if j < i { 0 } else {
                    self.member_word(db0, j)
                },
                forall|b: Seq<u8>| b.len() == 20 ==> #[trigger] self.index_in(*db, b) == if 1 <= self.index_in(db0, b) < i {
                    0
                } else {
                    self.index_in(db0, b)
                },
                set_footprint_only(db0, *db, acct, bk, ak),
            decreases sz + 1 - i,
        {
            let ghost prev = *db;
            assert(self.member_word(prev, i as int) == self.member_word(db0, i as int));
            let contents = self.backing_storage.read_slot(db, i);
            self.backing_storage.write_slot(db, i, U256::zero());
            self.by_address.clear_by_key(db, contents);
            proof {
                let m = word_address(self.member_word(db0, i as int));
                assert(contents.value() == self.member_word(db0, i as int));
                assert(address_word(m) == contents.value());
                assert(m.len() == 20);
                assert(self.index_in(db0, m) == i);
                assert(slot_of(bk, 0) != slot_of(bk, i as int));
                assert(slot_of(bk, 0) != slot_of(ak, address_word(m)));
                assert forall|j: int| 1 <= j <= sz implies #[trigger] self.member_word(*db, j) == if j < i + 1 { 0 } else {
                    self.member_word(db0, j)
                } by {
                    assert(slot_of(bk, j) != slot_of(ak, address_word(m)));
                    assert(self.member_word(prev, j) == if j < i { 0 } else { self.member_word(db0, j) });
                    if j != i {
                        assert(slot_of(bk, j) != slot_of(bk, i as int));
                    }
                }
                assert forall|b: Seq<u8>| b.len() == 20 implies #[trigger] self.index_in(*db, b) == if 1 <= self.index_in(db0, b) < i + 1 {
                    0
                } else {
                    self.index_in(db0, b)
                } by {
                    assert(slot_of(ak, address_word(b)) != slot_of(bk, i as int));
                    assert(self.index_in(prev, b) == if 1 <= self.index_in(db0, b) < i { 0 } else { self.index_in(db0, b) });
                    if b != m {
                        assert(slot_of(ak, address_word(b)) != slot_of(ak, address_word(m)));
                        if self.index_in(db0, b) == i {
                            assert(self.member_word(db0, i as int) == address_word(b));
                            crate::storage::law_address_word_roundtrip(b);
                            assert(false);
                        }
                    }
                }
                assert forall|acc: Seq<u8>, s: int|
                    !(acc == acct && (exists|k: int| 0 <= k <= u64_max() && s == slot_of(bk, k)) || acc == acct
                        && (exists|b: Seq<u8>| b.len() == 20 && s == slot_of(ak, address_word(b))))
                        implies #[trigger] slot_value(*db, acc, s) == slot_value(db0, acc, s) by {
                    assert(slot_value(prev, acc, s) == slot_value(db0, acc, s));
                    if acc == acct {
                        assert(s != slot_of(bk, i as int));
                        assert(s != slot_of(ak, address_word(m)));
                    }
                }
            }
            i += 1;
        }
        let ghost db1 = *db;
        self.size.clear(db);
        proof {
            assert forall|b: Seq<u8>| b.len() == 20 implies #[trigger] self.index_in(*db, b) == 0 by {
                assert(slot_of(ak, address_word(b)) != slot_of(bk, 0));
                assert(self.index_in(db1, b) == self.index_in(*db, b));
            }
            assert(self.members(*db) =~= Seq::<Seq<u8>>::empty());
            assert forall|acc: Seq<u8>, s: int|
                !(acc == acct && (exists|k: int| 0 <= k <= u64_max() && s == slot_of(bk, k)) || acc == acct
                    && (exists|b: Seq<u8>| b.len() == 20 && s == slot_of(ak, address_word(b))))
                    implies #[trigger] slot_value(*db, acc, s) == slot_value(db0, acc, s) by {
                assert(slot_value(db1, acc, s) == slot_value(db0, acc, s));
                if acc == acct {
                    assert(s != slot_of(bk, 0));
                }
            }
        }
    }

    /// Zeroes every member and the size, leaving the stored offsets as they
    /// were.
    pub fn clear_list(&mut self, db: &mut InMemoryDB)
        requires
            old(self).valid(*old(db)),
        ensures
            *final(self) == *old(self),
            final(self).size_in(*final(db)) == 0,
            final(self).members(*final(db)) == Seq::<Seq<u8>>::empty(),
            forall|j: int| 1 <= j <= old(self).size_in(*old(db)) ==> #[trigger] final(self).member_word(*final(db), j) == 0,
            forall|a: Seq<u8>| a.len() == 20 ==> #[trigger] final(self).index_in(*final(db), a) == old(self).index_in(*old(db), a),
            set_footprint_only(*old(db), *final(db), old(self).account(), old(self).backing_key(), old(self).index_key()),
    {
        let ghost db0 = *db;
        let ghost acct = self.account();
        let ghost bk = self.backing_key();
        let ghost ak = self.index_key();
        let sz = self.size.get(db);
        if sz == 0 {
            proof {
                assert(self.members(*db) =~= Seq::<Seq<u8>>::empty());
                assert(set_footprint_only(db0, *db, acct, bk, ak));
            }
            return;
        }
        let mut i: u64 = 1;
        while i <= sz
            invariant
                1 <= i <= sz + 1,
                sz == self.size_in(db0),
                sz < u64_max(),
                self.valid(db0),
                acct == self.account(),
                bk == self.backing_key(),
                ak == self.index_key(),
                forall|j: int| 1 <= j < i ==> #[trigger] self.member_word(*db, j) == 0,
                forall|acc: Seq<u8>, s: int|
                    !(acc == acct && exists|k: int| 1 <= k < i && s == slot_of(bk, k)) ==> #[trigger] slot_value(*db, acc, s)
                        == slot_value(db0, acc, s),
                db_balances(*db) == db_balances(db0),
            decreases sz + 1 - i,
        {
            let ghost prev = *db;
            self.backing_storage.write_slot(db, i, U256::zero());
            proof {
                assert forall|j: int| 1 <= j < i + 1 implies #[trigger] self.member_word(*db, j) == 0 by {
                    if j != i {
                        assert(self.member_word(prev, j) == 0);
                        assert(slot_of(bk, j) != slot_of(bk, i as int));
                    }
                }
                assert forall|acc: Seq<u8>, s: int|
                    !(acc == acct && exists|k: int| 1 <= k < i + 1 && s == slot_of(bk, k)) implies #[trigger] slot_value(*db, acc, s)
                        == slot_value(db0, acc, s) by {
                    assert(slot_value(*db, acc, s) == slot_value(prev, acc, s));
                }
            }
            i += 1;
        }
        let ghost db1 = *db;
        self.size.clear(db);
        proof {
            assert(self.members(*db) =~= Seq::<Seq<u8>>::empty());
            assert forall|j: int| 1 <= j <= sz implies #[trigger] self.member_word(*db, j) == 0 by {
                assert(slot_of(bk, j) != slot_of(bk, 0));
                assert(self.member_word(db1, j) == 0);
            }
            assert forall|a: Seq<u8>| a.len() == 20 implies #[trigger] self.index_in(*db, a) == self.index_in(db0, a) by {
                assert(slot_of(ak, address_word(a)) != slot_of(bk, 0));
                assert forall|k: int| 1 <= k < sz + 1 implies slot_of(ak, address_word(a)) != slot_of(bk, k) by {}
                assert(slot_value(db1, acct, slot_of(ak, address_word(a))) == slot_value(db0, acct, slot_of(ak, address_word(a))));
            }
            assert forall|acc: Seq<u8>, s: int|
                !(acc == acct && (exists|k: int| 0 <= k <= u64_max() && s == slot_of(bk, k)) || acc == acct
                    && (exists|b: Seq<u8>| b.len() == 20 && s == slot_of(ak, address_word(b))))
                    implies #[trigger] slot_value(*db, acc, s) == slot_value(db0, acc, s) by {
                if acc == acct {
                    assert(s != slot_of(bk, 0));
                    assert forall|k: int| 1 <= k < sz + 1 implies s != slot_of(bk, k) by {}
                }
                assert(slot_value(db1, acc, s) == slot_value(db0, acc, s));
            }
        }
    }

    /// Whether the stored offset of `a` points at a member slot, within the
    /// size, that holds `a`.
    pub open spec fn correctly_mapped(&self, db: InMemoryDB, a: Seq<u8>) -> bool {
        &&& self.member_word(db, self.index_in(db, a)) == address_word(a)
        &&& self.index_in(db, a) <= self.size_in(db)
    }

    /// Repairs the stored offset of the member `addr` when it does not point
    /// at `addr`: forgets it and adds `addr` again at the end. Fails, and
    /// changes nothing, where `addr` is no member or its offset is right.
    pub fn rectify_mapping(&mut self, db: &mut InMemoryDB, addr: Address) -> (r: Result<(), RectifyError>)
        requires
            old(self).inv(),
            old(self).contains(*old(db), addr.bytes@) ==> old(self).index_in(*old(db), addr.bytes@) <= u64_max(),
            0 <= old(self).size_in(*old(db)),
            old(self).size_in(*old(db)) + 1 < u64_max(),
        ensures
            *final(self) == *old(self),
            match r {
                Err(RectifyError::NotAnOwner) => !old(self).contains(*old(db), addr.bytes@) && *final(db) == *old(db),
                Err(RectifyError::CorrectlyMapped) => {
                    &&& old(self).contains(*old(db), addr.bytes@)
                    &&& old(self).correctly_mapped(*old(db), addr.bytes@)
                    &&& *final(db) == *old(db)
                },
                Ok(()) => {
                    &&& old(self).contains(*old(db), addr.bytes@)
                    &&& !old(self).correctly_mapped(*old(db), addr.bytes@)
                    &&& final(self).members(*final(db)) == old(self).members(*old(db)).push(addr.bytes@)
                    &&& final(self).index_in(*final(db), addr.bytes@) == old(self).size_in(*old(db)) + 1
                    &&& set_footprint_only(
                        *old(db),
                        *final(db),
                        old(self).account(),
                        old(self).backing_key(),
                        old(self).index_key(),
                    )
                },
            },
    {
        if !self.is_member(db, addr) {
            return Err(RectifyError::NotAnOwner);
        }
        let ghost db0 = *db;
        let ghost acct = self.account();
        let ghost bk = self.backing_key();
        let ghost ak = self.index_key();
        let ghost a = addr.bytes@;
        let key = address_to_word(addr);
        proof {
            assert(self.index_in(*db, a) == self.by_address.value_at(*db, key.value()));
        }
        let slot = self.by_address.get_uint64_by_key(db, key);
        let at_slot = self.backing_storage.read_slot(db, slot);
        let sz = self.size.get(db);
        let addr_as_value = address_to_word(addr);
        let correctly_mapped = at_slot.equals(&addr_as_value) && slot <= sz;
        if correctly_mapped {
            return Err(RectifyError::CorrectlyMapped);
        }
        self.by_address.clear_by_key(db, key);
        let ghost db1 = *db;
        proof {
            assert(slot_of(ak, address_word(a)) != slot_of(bk, 0));
            assert(self.size_in(db1) == self.size_in(db0));
            assert(!self.contains(db1, a));
            assert forall|i: int| 0 <= i <= u64_max() implies #[trigger] self.member_word(db1, i) == self.member_word(db0, i) by {
                assert(slot_of(ak, address_word(a)) != slot_of(bk, i));
            }
            assert(self.members(db1) =~= self.members(db0));
        }
        self.add(db, addr);
        proof {
            assert forall|acc: Seq<u8>, s: int|
                !(acc == acct && (exists|k: int| 0 <= k <= u64_max() && s == slot_of(bk, k)) || acc == acct
                    && (exists|b: Seq<u8>| b.len() == 20 && s == slot_of(ak, address_word(b))))
                    implies #[trigger] slot_value(*db, acc, s) == slot_value(db0, acc, s) by {
                if acc == acct {
                    assert(s != slot_of(ak, address_word(a)));
                }
                assert(slot_value(db1, acc, s) == slot_value(db0, acc, s));
            }
        }
        Ok(())
    }

    /// Adds `addr` at the end unless it is already a member.
    pub fn add(&mut self, db: &mut InMemoryDB, addr: Address)
        requires
            old(self).inv(),
            0 <= old(self).size_in(*old(db)),
            old(self).size_in(*old(db)) + 1 < u64_max(),
        ensures
            *final(self) == *old(self),
            old(self).valid(*old(db)) ==> final(self).valid(*final(db)),
            !old(self).contains(*old(db), addr.bytes@) ==> final(self).index_in(*final(db), addr.bytes@)
                == old(self).size_in(*old(db)) + 1,
            final(self).members(*final(db)) == if old(self).contains(*old(db), addr.bytes@) {
                old(self).members(*old(db))
            } else {
                old(self).members(*old(db)).push(addr.bytes@)
            },
            set_footprint_only(*old(db), *final(db), old(self).account(), old(self).backing_key(), old(self).index_key()),
    {
        if self.is_member(db, addr) {
            return;
        }
        let ghost db0 = *db;
        let ghost acct = self.account();
        let ghost bk = self.backing_key();
        let ghost ak = self.index_key();
        let ghost a = addr.bytes@;
        let sz = self.size.get(db);
        let slot = sz + 1;
        let key = address_to_word(addr);
        self.by_address.set_by_key(db, key, U256::from_u64(slot));
        let ghost db1 = *db;
        let word = address_to_word(addr);
        self.backing_storage.write_slot(db, slot, word);
        let ghost db2 = *db;
        proof {
            crate::storage::law_address_word_roundtrip(a);
            assert(slot_of(bk, slot as int) != slot_of(ak, address_word(a)));
            assert(slot_of(bk, slot as int) != slot_of(bk, 0));
            assert(slot_of(ak, address_word(a)) != slot_of(bk, 0));
        }
        let _ = self.size.increment(db);
        proof {
            let sl = slot as int;
            // values after the three writes
            assert(self.size_in(*db) == sl);
            assert(self.member_word(*db, sl) == address_word(a));
            assert(self.index_in(*db, a) == sl);
            assert forall|i: int| 1 <= i < sl implies #[trigger] self.member_word(*db, i) == self.member_word(db0, i) by {
                assert(slot_of(bk, i) != slot_of(ak, address_word(a)));
                assert(slot_of(bk, i) != slot_of(bk, sl));
                assert(slot_of(bk, i) != slot_of(bk, 0));
            }
            assert forall|b: Seq<u8>| b.len() == 20 && b != a implies #[trigger] self.index_in(*db, b) == self.index_in(db0, b) by {
                assert(slot_of(ak, address_word(b)) != slot_of(ak, address_word(a)));
                assert(slot_of(ak, address_word(b)) != slot_of(bk, sl));
                assert(slot_of(ak, address_word(b)) != slot_of(bk, 0));
            }
            if self.valid(db0) {
                assert forall|i: int|
                    1 <= i <= self.size_in(*db) implies address_word(word_address(#[trigger] self.member_word(*db, i)))
                        == self.member_word(*db, i) && word_address(self.member_word(*db, i)).len() == 20 by {
                    if i < sl {
                        assert(self.member_word(*db, i) == self.member_word(db0, i));
                    }
                }
                assert forall|i: int|
                    1 <= i <= self.size_in(*db) implies self.index_in(*db, word_address(#[trigger] self.member_word(*db, i)))
                        == i by {
                    if i < sl {
                        assert(self.member_word(*db, i) == self.member_word(db0, i));
                        let w = word_address(self.member_word(db0, i));
                        assert(self.index_in(db0, w) == i);
                        if w == a {
                            assert(self.index_in(db0, a) == i);
                            assert(false);
                        }
                        assert(self.index_in(*db, w) == self.index_in(db0, w));
                    }
                }
                assert forall|b: Seq<u8>|
                    b.len() == 20 && #[trigger] self.index_in(*db, b) != 0 implies 1 <= self.index_in(*db, b)
                        <= self.size_in(*db) && self.member_word(*db, self.index_in(*db, b)) == address_word(b) by {
                    if b != a {
                        assert(self.index_in(*db, b) == self.index_in(db0, b));
                        let k = self.index_in(db0, b);
                        assert(self.member_word(*db, k) == self.member_word(db0, k));
                    }
                }
            }
            assert(self.members(*db) =~= self.members(db0).push(a)) by {
                assert forall|i: int| 0 <= i < sl - 1 implies #[trigger] self.members(*db)[i] == self.members(db0)[i] by {
                    assert(self.member_word(*db, i + 1) == self.member_word(db0, i + 1));
                }
            }
            assert(set_footprint_only(db0, *db, acct, bk, ak)) by {
                assert forall|acc: Seq<u8>, s: int|
                    !(acc == acct && (exists|i: int| 0 <= i <= u64_max() && s == slot_of(bk, i)) || acc == acct
                        && (exists|b: Seq<u8>| b.len() == 20 && s == slot_of(ak, address_word(b))))
                        implies #[trigger] slot_value(*db, acc, s) == slot_value(db0, acc, s) by {
                    if acc == acct {
                        assert(s != slot_of(bk, 0));
                        assert(s != slot_of(bk, sl));
                        assert(s != slot_of(ak, address_word(a)));
                    }
                }
            }
        }
    }
}

} // verus!
