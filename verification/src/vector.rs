//! A vector of child storage spaces: the length at offset 0 of the parent
//! space, and element `i` in the child space whose id is the 8 big-endian
//! bytes of `i`.
use vstd::prelude::*;

use revm::database::InMemoryDB;

use crate::burn::Burner;
use crate::multigas::u64_max;
use crate::statedb::{db_slot_written, slot_value};
use crate::storage::{slot_of, sub_storage_key, Storage, StorageBackedUint64};

verus! {

/// The offset of the length in the vector's space.
pub const SUB_STORAGE_VECTOR_LENGTH_OFFSET: u64 = 0;

/// The 8 big-endian bytes of `x` (what `u64::to_be_bytes` gives).
pub open spec fn be8(x: u64) -> Seq<u8> {
    Seq::new(8, |i: int| ((x >> ((56 - 8 * i) as u64)) & 0xff) as u8)
}

/// The 8 big-endian bytes of `x`.
pub fn u64_be_bytes(x: u64) -> (r: Vec<u8>)
    ensures
        r@ == be8(x),
{
    let mut r: Vec<u8> = Vec::new();
    let mut i: u64 = 0;
    while i < 8
        invariant
            i <= 8,
            r@ == be8(x).take(i as int),
        decreases 8 - i,
    {
        let b = ((x >> (56 - 8 * i)) & 0xff) as u8;
        r.push(b);
        proof {
            assert(r@ =~= be8(x).take(i + 1));
        }
        i += 1;
    }
    assert(be8(x).take(8) =~= be8(x));
    r
}

/// A vector of child spaces of one storage space.
pub struct SubStorageVector<B: Burner> {
    storage: Storage<B>,
    length: StorageBackedUint64<B>,
}

impl<B: Burner> SubStorageVector<B> {
    /// The account whose storage holds the vector.
    pub closed spec fn account(&self) -> Seq<u8> {
        self.storage.account.bytes@
    }

    /// The key of the vector's space.
    pub closed spec fn key(&self) -> Seq<u8> {
        self.storage.storage_key@
    }

    /// The stored length.
    pub open spec fn len(&self, db: InMemoryDB) -> int {
        slot_value(db, self.account(), slot_of(self.key(), SUB_STORAGE_VECTOR_LENGTH_OFFSET as int))
    }

    /// The key of the space of element `i`.
    pub open spec fn element_key(&self, i: u64) -> Seq<u8> {
        sub_storage_key(self.key(), be8(i))
    }

    /// The length's handle sits at offset 0 of the vector's space.
    pub closed spec fn inv(&self) -> bool {
        &&& self.length.account_view() == self.account()
        &&& self.length.slot_view() == slot_of(self.key(), SUB_STORAGE_VECTOR_LENGTH_OFFSET as int)
    }

    /// Whether the stored vector is consistent: its length fits a `u64`.
    pub open spec fn valid(&self, db: InMemoryDB) -> bool {
        &&& self.inv()
        &&& 0 <= self.len(db) <= u64_max()
    }

    /// The vector kept in the space `sto`.
    pub fn open(sto: &Storage<B>) -> (r: Self)
        where
            B: Clone,
        ensures
            r.account() == sto.account.bytes@,
            r.key() == sto.storage_key@,
            r.inv(),
    {
        SubStorageVector {
            storage: Storage { account: sto.account, storage_key: sto.storage_key.clone(), burner: sto.burner.clone() },
            length: sto.open_storage_backed_uint64(SUB_STORAGE_VECTOR_LENGTH_OFFSET),
        }
    }

    /// The number of elements.
    pub fn length(&self, db: &InMemoryDB) -> (r: u64)
        requires
            self.valid(*db),
        ensures
            r == self.len(*db),
    {
        self.length.get(db)
    }

    /// Adds an element at the end and returns its space; the length must be
    /// below `u64::MAX`.
    pub fn push(&mut self, db: &mut InMemoryDB) -> (r: Storage<B>)
        where
            B: Clone,
        requires
            old(self).valid(*old(db)),
            old(self).len(*old(db)) < u64_max(),
        ensures
            *final(self) == *old(self),
            r.account.bytes@ == old(self).account(),
            r.storage_key@ == old(self).element_key(old(self).len(*old(db)) as u64),
            db_slot_written(
                *old(db),
                *final(db),
                old(self).account(),
                slot_of(old(self).key(), SUB_STORAGE_VECTOR_LENGTH_OFFSET as int),
                old(self).len(*old(db)) + 1,
            ),
    {
        let length = self.length.get(db);
        let id = u64_be_bytes(length);
        let sub_storage = self.storage.open_sub_storage(id.as_slice());
        self.length.set(db, length + 1);
        sub_storage
    }

    /// Removes the last element and returns its space; the vector must not
    /// be empty.
    pub fn pop(&mut self, db: &mut InMemoryDB) -> (r: Storage<B>)
        where
            B: Clone,
        requires
            old(self).valid(*old(db)),
            old(self).len(*old(db)) > 0,
        ensures
            *final(self) == *old(self),
            r.account.bytes@ == old(self).account(),
            r.storage_key@ == old(self).element_key((old(self).len(*old(db)) - 1) as u64),
            db_slot_written(
                *old(db),
                *final(db),
                old(self).account(),
                slot_of(old(self).key(), SUB_STORAGE_VECTOR_LENGTH_OFFSET as int),
                old(self).len(*old(db)) - 1,
            ),
    {
        let length = self.length.get(db);
        let id = u64_be_bytes(length - 1);
        let sub_storage = self.storage.open_sub_storage(id.as_slice());
        self.length.set(db, length - 1);
        sub_storage
    }

    /// The space of element `i`, whether or not `i` is below the length.
    pub fn at(&self, i: u64) -> (r: Storage<B>)
        where
            B: Clone,
        ensures
            r.account.bytes@ == self.account(),
            r.storage_key@ == self.element_key(i),
    {
        let id = u64_be_bytes(i);
        self.storage.open_sub_storage(id.as_slice())
    }
}

/// Law: popping right after a push gives back the space that the push gave
/// and the length that the vector had before.
pub proof fn law_vector_push_pop<B: Burner>(v: SubStorageVector<B>, db0: InMemoryDB, db1: InMemoryDB, db2: InMemoryDB)
    requires
        v.valid(db0),
        v.len(db0) < u64_max(),
        db_slot_written(db0, db1, v.account(), slot_of(v.key(), SUB_STORAGE_VECTOR_LENGTH_OFFSET as int), v.len(db0) + 1),
        db_slot_written(db1, db2, v.account(), slot_of(v.key(), SUB_STORAGE_VECTOR_LENGTH_OFFSET as int), v.len(db1) - 1),
    ensures
        v.valid(db1),
        v.len(db1) > 0,
        v.element_key((v.len(db1) - 1) as u64) == v.element_key(v.len(db0) as u64),
        v.len(db2) == v.len(db0),
        v.valid(db2),
{
}

/// Law: the spaces of two different elements have different ids, so they
/// are different spaces unless keccak256 collides.
pub proof fn law_vector_ids_distinct(i: u64, j: u64)
    requires
        i != j,
    ensures
        be8(i) != be8(j),
{
    assert(i == ((be8(i)[0] as u64) << 56u64) | ((be8(i)[1] as u64) << 48u64) | ((be8(i)[2] as u64) << 40u64)
        | ((be8(i)[3] as u64) << 32u64) | ((be8(i)[4] as u64) << 24u64) | ((be8(i)[5] as u64) << 16u64)
        | ((be8(i)[6] as u64) << 8u64) | (be8(i)[7] as u64)) by {
        lemma_be8_rebuild(i);
    }
    assert(j == ((be8(j)[0] as u64) << 56u64) | ((be8(j)[1] as u64) << 48u64) | ((be8(j)[2] as u64) << 40u64)
        | ((be8(j)[3] as u64) << 32u64) | ((be8(j)[4] as u64) << 24u64) | ((be8(j)[5] as u64) << 16u64)
        | ((be8(j)[6] as u64) << 8u64) | (be8(j)[7] as u64)) by {
        lemma_be8_rebuild(j);
    }
}

/// The eight bytes of `x` put back together give `x`.
proof fn lemma_be8_rebuild(x: u64)
    ensures
        x == ((be8(x)[0] as u64) << 56u64) | ((be8(x)[1] as u64) << 48u64) | ((be8(x)[2] as u64) << 40u64)
            | ((be8(x)[3] as u64) << 32u64) | ((be8(x)[4] as u64) << 24u64) | ((be8(x)[5] as u64) << 16u64)
            | ((be8(x)[6] as u64) << 8u64) | (be8(x)[7] as u64),
{
    let b0 = ((x >> 56u64) & 0xff) as u8;
    let b1 = ((x >> 48u64) & 0xff) as u8;
    let b2 = ((x >> 40u64) & 0xff) as u8;
    let b3 = ((x >> 32u64) & 0xff) as u8;
    let b4 = ((x >> 24u64) & 0xff) as u8;
    let b5 = ((x >> 16u64) & 0xff) as u8;
    let b6 = ((x >> 8u64) & 0xff) as u8;
    let b7 = ((x >> 0u64) & 0xff) as u8;
    assert(be8(x)[0] == b0 && be8(x)[1] == b1 && be8(x)[2] == b2 && be8(x)[3] == b3);
    assert(be8(x)[4] == b4 && be8(x)[5] == b5 && be8(x)[6] == b6 && be8(x)[7] == b7);
    assert(x == ((b0 as u64) << 56u64) | ((b1 as u64) << 48u64) | ((b2 as u64) << 40u64) | ((b3 as u64) << 32u64)
        | ((b4 as u64) << 24u64) | ((b5 as u64) << 16u64) | ((b6 as u64) << 8u64) | (b7 as u64)) by (bit_vector)
        requires
            b0 == ((x >> 56u64) & 0xff) as u8,
            b1 == ((x >> 48u64) & 0xff) as u8,
            b2 == ((x >> 40u64) & 0xff) as u8,
            b3 == ((x >> 32u64) & 0xff) as u8,
            b4 == ((x >> 24u64) & 0xff) as u8,
            b5 == ((x >> 16u64) & 0xff) as u8,
            b6 == ((x >> 8u64) & 0xff) as u8,
            b7 == ((x >> 0u64) & 0xff) as u8,
    ;
}

} // verus!
