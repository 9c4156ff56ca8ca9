//! ArbOS storage: a tree of storage spaces kept in the storage of one
//! account. A space has a key; a child's key is keccak256(parent key ++ id);
//! the slot of `key` in a space keeps the last byte of `key` and takes the
//! first 31 bytes of keccak256(space key ++ first 31 bytes of `key`).
use vstd::prelude::*;

use revm::database::InMemoryDB;

use crate::burn::Burner;
use crate::multigas::u64_max;
use crate::statedb::{db_slot_written, read_storage, slot_value, write_storage};
use crate::word::{p255, p256, p64, Address, I256, U256, i256_unsigned_abs};
use crate::poster_cost::pow256;

verus! {

/// The number that a big-endian byte sequence stands for.
pub open spec fn be_value(s: Seq<u8>) -> int
    decreases s.len(),
{
    if s.len() == 0 {
        0
    } else {
        be_value(s.drop_last()) * 256 + s.last()
    }
}

/// Big-endian numbers are never negative.
pub proof fn lemma_be_value_nonneg(s: Seq<u8>)
    ensures
        be_value(s) >= 0,
    decreases s.len(),
{
    if s.len() > 0 {
        lemma_be_value_nonneg(s.drop_last());
    }
}

/// Two byte sequences of one length with the same big-endian number are equal.
pub proof fn lemma_be_value_injective(s: Seq<u8>, t: Seq<u8>)
    requires
        s.len() == t.len(),
        be_value(s) == be_value(t),
    ensures
        s == t,
    decreases s.len(),
{
    if s.len() > 0 {
        lemma_be_value_nonneg(s.drop_last());
        lemma_be_value_nonneg(t.drop_last());
        assert(s.last() == t.last());
        lemma_be_value_injective(s.drop_last(), t.drop_last());
        assert(s =~= s.drop_last().push(s.last()));
        assert(t =~= t.drop_last().push(t.last()));
    } else {
        assert(s =~= t);
    }
}

/// The 32 big-endian bytes of a word's value.
pub open spec fn bytes32_of(x: int) -> Seq<u8> {
    choose|s: Seq<u8>| s.len() == 32 && be_value(s) == x
}

/// Any 32 bytes with the number `x` are the bytes of `x`.
pub proof fn lemma_bytes32_of(s: Seq<u8>, x: int)
    requires
        s.len() == 32,
        be_value(s) == x,
    ensures
        bytes32_of(x) == s,
{
    let t = bytes32_of(x);
    assert(t.len() == 32 && be_value(t) == x);
    lemma_be_value_injective(t, s);
}

/// The result of keccak256 on the given bytes.
pub uninterp spec fn keccak256_spec(data: Seq<u8>) -> Seq<u8>;

/// Computes keccak256 with `alloy_primitives::keccak256`.
#[verifier::external_body]
pub(crate) fn keccak256(data: &[u8]) -> (r: [u8; 32])
    ensures
        r@ == keccak256_spec(data@),
{
    alloy_primitives::keccak256(data).0
}

/// The 32 big-endian bytes of a word (`ruint`'s `to_be_bytes::<32>`).
#[verifier::external_body]
pub(crate) fn u256_to_be_bytes(x: U256) -> (r: [u8; 32])
    ensures
        be_value(r@) == x.value(),
{
    alloy_primitives::U256::from_limbs([x.l0, x.l1, x.l2, x.l3]).to_be_bytes::<32>()
}

/// The word of 32 big-endian bytes (`ruint`'s `from_be_bytes::<32>`).
#[verifier::external_body]
pub(crate) fn u256_from_be_bytes(b: [u8; 32]) -> (r: U256)
    ensures
        r.value() == be_value(b@),
{
    let l = alloy_primitives::U256::from_be_bytes::<32>(b).into_limbs();
    U256 { l0: l[0], l1: l[1], l2: l[2], l3: l[3] }
}

/// The bytes of `x`, with their number proved.
pub(crate) fn word_bytes(x: U256) -> (r: [u8; 32])
    ensures
        r@ == bytes32_of(x.value()),
        be_value(r@) == x.value(),
{
    let r = u256_to_be_bytes(x);
    proof {
        lemma_bytes32_of(r@, x.value());
    }
    r
}

/// The physical slot of `key` in the storage space with key `storage_key`.
pub open spec fn slot_of(storage_key: Seq<u8>, key: int) -> int {
    let kb = bytes32_of(key);
    be_value(keccak256_spec(storage_key + kb.take(31)).take(31).push(kb[31]))
}

/// The key of the child space `id` of the space with key `storage_key`.
pub open spec fn sub_storage_key(storage_key: Seq<u8>, id: Seq<u8>) -> Seq<u8> {
    keccak256_spec(storage_key + id)
}

/// The word whose low 20 bytes are the address, the rest zero.
pub open spec fn address_word(a: Seq<u8>) -> int {
    be_value(Seq::new(12, |i: int| 0u8) + a)
}

/// The address in the low 20 bytes of a word.
pub open spec fn word_address(x: int) -> Seq<u8> {
    bytes32_of(x).skip(12)
}

/// The word that stands for "no address": 2^255.
pub open spec fn nil_address_word() -> int {
    p255()
}

/// The word of an address: 12 zero bytes, then the address.
pub fn address_to_word(a: Address) -> (r: U256)
    ensures
        r.value() == address_word(a.bytes@),
{
    let mut b = [0u8; 32];
    let mut i: usize = 0;
    while i < 20
        invariant
            i <= 20,
            forall|j: int| 0 <= j < 12 ==> b@[j] == 0,
            forall|j: int| 0 <= j < i ==> b@[12 + j] == a.bytes@[j],
        decreases 20 - i,
    {
        b[12 + i] = a.bytes[i];
        i += 1;
    }
    assert(b@ =~= Seq::new(12, |i: int| 0u8) + a.bytes@);
    u256_from_be_bytes(b)
}

/// The address in the low 20 bytes of a word.
pub fn word_to_address(x: U256) -> (r: Address)
    ensures
        r.bytes@ == word_address(x.value()),
{
    let b = word_bytes(x);
    let mut a = [0u8; 20];
    let mut i: usize = 0;
    while i < 20
        invariant
            i <= 20,
            forall|j: int| 0 <= j < i ==> a@[j] == b@[12 + j],
        decreases 20 - i,
    {
        a[i] = b[12 + i];
        i += 1;
    }
    assert(a@ =~= b@.skip(12));
    Address { bytes: a }
}

/// Law: the address stored in a word is the address read back.
pub proof fn law_address_word_roundtrip(a: Seq<u8>)
    requires
        a.len() == 20,
    ensures
        word_address(address_word(a)) == a,
{
    let s = Seq::new(12, |i: int| 0u8) + a;
    lemma_bytes32_of(s, address_word(a));
    assert(s.skip(12) =~= a);
}

/// Law: an offset of a space reads back the word written to it; every
/// offset with another slot reads as before.
pub proof fn law_get_after_set<B: Burner>(sto: Storage<B>, db1: InMemoryDB, db2: InMemoryDB, key: int, v: int)
    requires
        db_slot_written(db1, db2, sto.account.bytes@, sto.slot(key), v),
    ensures
        sto.value_at(db2, key) == v,
        forall|k: int| sto.slot(k) != sto.slot(key) ==> #[trigger] sto.value_at(db2, k) == sto.value_at(db1, k),
{
}

/// Whether offsets `0..=n` of the space with key `sk` have pairwise distinct
/// slots (they do unless keccak256 collides).
pub open spec fn offsets_distinct(sk: Seq<u8>, n: int) -> bool {
    forall|i: int, j: int| 0 <= i < j <= n ==> slot_of(sk, i) != slot_of(sk, j)
}

/// A run of zero bytes stands for zero.
proof fn lemma_be_value_zeros(m: nat)
    ensures
        be_value(Seq::new(m, |i: int| 0u8)) == 0,
    decreases m,
{
    if m > 0 {
        assert(Seq::new(m, |i: int| 0u8).drop_last() =~= Seq::new((m - 1) as nat, |i: int| 0u8));
        lemma_be_value_zeros((m - 1) as nat);
    }
}

/// Law: each of the offsets 0 to 255 of a space keeps itself as the last
/// byte of its slot, so these offsets sit in distinct slots, whatever
/// keccak256 gives.
pub proof fn law_first_offsets_distinct(sk: Seq<u8>, n: int)
    requires
        0 <= n < 256,
    ensures
        forall|k: int| 0 <= k < 256 ==> #[trigger] slot_of(sk, k) % 256 == k,
        offsets_distinct(sk, n),
{
    assert forall|k: int| 0 <= k < 256 implies #[trigger] slot_of(sk, k) % 256 == k by {
        let z = Seq::new(31, |i: int| 0u8);
        let b = z.push(k as u8);
        lemma_be_value_zeros(31);
        assert(b.drop_last() =~= z);
        lemma_bytes32_of(b, k);
        let kb = bytes32_of(k);
        assert(kb[31] == k);
        let h = keccak256_spec(sk + kb.take(31)).take(31);
        let t = h.push(kb[31]);
        assert(t.drop_last() =~= h);
        lemma_be_value_nonneg(h);
        let a = be_value(h);
        assert(be_value(t) == a * 256 + k);
        assert((a * 256 + k) % 256 == k) by (nonlinear_arith)
            requires
                0 <= a,
                0 <= k < 256,
        ;
    }
}

/// The low `n` bytes of `x`, big-endian.
pub open spec fn be_bytes(x: nat, n: nat) -> Seq<u8>
    decreases n,
{
    if n == 0 {
        Seq::empty()
    } else {
        be_bytes(x / 256, (n - 1) as nat).push((x % 256) as u8)
    }
}

/// A number below 256^n is what its low `n` bytes stand for.
proof fn lemma_be_bytes(x: nat, n: nat)
    requires
        x < pow256(n),
    ensures
        be_bytes(x, n).len() == n,
        be_value(be_bytes(x, n)) == x,
    decreases n,
{
    if n > 0 {
        let m = pow256((n - 1) as nat);
        assert(x / 256 < m) by (nonlinear_arith)
            requires
                x < 256 * m,
        ;
        lemma_be_bytes(x / 256, (n - 1) as nat);
        assert(be_bytes(x, n).drop_last() =~= be_bytes(x / 256, (n - 1) as nat));
        assert((x / 256) * 256 + x % 256 == x) by (nonlinear_arith);
    }
}

/// The 32 bytes of a word's value are its low 32 bytes.
pub(crate) proof fn lemma_bytes32_of_word(x: int)
    requires
        0 <= x < p256(),
    ensures
        bytes32_of(x).len() == 32,
        be_value(bytes32_of(x)) == x,
        bytes32_of(x) == be_bytes(x as nat, 32),
        bytes32_of(x).take(31) == be_bytes((x / 256) as nat, 31),
        bytes32_of(x)[31] == x % 256,
{
    assert(pow256(32) == p256()) by {
        reveal_with_fuel(pow256, 33);
    }
    lemma_be_bytes(x as nat, 32);
    lemma_bytes32_of(be_bytes(x as nat, 32), x);
    assert(be_bytes(x as nat, 32).take(31) =~= be_bytes((x / 256) as nat, 31));
}

/// Law: a space's slots come in pages of 256: keys that agree but in their
/// last byte have slots that agree but in their last byte, which is the
/// key's own; so keys of one page sit in distinct slots, whatever keccak256
/// gives.
pub proof fn law_slot_pages(sk: Seq<u8>, a: int, b: int)
    requires
        0 <= a < p256(),
        0 <= b < p256(),
        a / 256 == b / 256,
    ensures
        slot_of(sk, a) % 256 == a % 256,
        slot_of(sk, a) / 256 == slot_of(sk, b) / 256,
        slot_of(sk, a) - slot_of(sk, b) == a - b,
        a != b ==> slot_of(sk, a) != slot_of(sk, b),
{
    lemma_bytes32_of_word(a);
    lemma_bytes32_of_word(b);
    let ka = bytes32_of(a);
    let kb = bytes32_of(b);
    assert(ka.take(31) == kb.take(31));
    let h = keccak256_spec(sk + ka.take(31)).take(31);
    lemma_be_value_nonneg(h);
    let ta = h.push(ka[31]);
    let tb = h.push(kb[31]);
    assert(ta.drop_last() =~= h);
    assert(tb.drop_last() =~= h);
    let v = be_value(h);
    assert(slot_of(sk, a) == v * 256 + a % 256);
    assert(slot_of(sk, b) == v * 256 + b % 256);
    assert(a == (a / 256) * 256 + a % 256) by (nonlinear_arith);
    assert(b == (b / 256) * 256 + b % 256) by (nonlinear_arith);
    assert((v * 256 + a % 256) % 256 == a % 256 && (v * 256 + a % 256) / 256 == v) by (nonlinear_arith)
        requires
            0 <= v,
            0 <= a % 256 < 256,
    ;
    assert((v * 256 + b % 256) / 256 == v) by (nonlinear_arith)
        requires
            0 <= v,
            0 <= b % 256 < 256,
    ;
}

/// The bytes of the first `k` full chunks of a byte string kept from offset 1 on.
pub open spec fn chunks_bytes(db: InMemoryDB, account: Seq<u8>, sk: Seq<u8>, k: nat) -> Seq<u8>
    decreases k,
{
    if k == 0 {
        Seq::empty()
    } else {
        chunks_bytes(db, account, sk, (k - 1) as nat) + bytes32_of(
            slot_value(db, account, slot_of(sk, k as int)),
        )
    }
}

/// The byte string kept in a space: its length at offset 0, its full 32-byte
/// chunks at offsets 1, 2, ..., and its remaining bytes right-aligned in the
/// next offset.
pub open spec fn stored_bytes(db: InMemoryDB, account: Seq<u8>, sk: Seq<u8>) -> Seq<u8> {
    let len = slot_value(db, account, slot_of(sk, 0));
    let full = len / 32;
    let rem = len % 32;
    chunks_bytes(db, account, sk, full as nat) + if rem > 0 {
        bytes32_of(slot_value(db, account, slot_of(sk, full + 1))).skip(32 - rem)
    } else {
        Seq::empty()
    }
}

/// The number of offsets after 0 that a byte string of length `len` occupies.
pub open spec fn chunk_count(len: int) -> int {
    (len + 31) / 32
}

/// Whether `db2` is `db1` with offsets `lo..=hi` of the space `sk` of
/// `account` set to zero.
pub open spec fn offsets_cleared(db1: InMemoryDB, db2: InMemoryDB, account: Seq<u8>, sk: Seq<u8>, lo: int, hi: int) -> bool {
    &&& crate::statedb::db_balances(db2) == crate::statedb::db_balances(db1)
    &&& forall|a: Seq<u8>, s: int|
        #[trigger] slot_value(db2, a, s) == if a == account && exists|k: int| lo <= k <= hi && s == slot_of(sk, k) {
            0
        } else {
            slot_value(db1, a, s)
        }
}

/// Whether `db2` differs from `db1` at most in offsets `0..=n` of the space
/// `sk` of `account`.
pub open spec fn only_offsets_changed(db1: InMemoryDB, db2: InMemoryDB, account: Seq<u8>, sk: Seq<u8>, n: int) -> bool {
    &&& crate::statedb::db_balances(db2) == crate::statedb::db_balances(db1)
    &&& forall|a: Seq<u8>, s: int|
        !(a == account && exists|k: int| 0 <= k <= n && s == slot_of(sk, k)) ==> #[trigger] slot_value(db2, a, s)
            == slot_value(db1, a, s)
}

/// The chunks read back are the bytes written.
pub proof fn lemma_chunks_bytes(db: InMemoryDB, account: Seq<u8>, sk: Seq<u8>, b: Seq<u8>, k: nat)
    requires
        32 * k <= b.len(),
        forall|i: int| 1 <= i <= k ==> slot_value(db, account, slot_of(sk, i)) == be_value(
            #[trigger] b.subrange(32 * (i - 1), 32 * i),
        ),
    ensures
        chunks_bytes(db, account, sk, k) == b.take(32 * k as int),
    decreases k,
{
    if k == 0 {
        assert(b.take(0) =~= Seq::<u8>::empty());
    } else {
        lemma_chunks_bytes(db, account, sk, b, (k - 1) as nat);
        let sub = b.subrange(32 * (k - 1), 32 * k as int);
        lemma_bytes32_of(sub, be_value(sub));
        assert(b.take(32 * (k - 1)) + sub =~= b.take(32 * k as int));
    }
}

/// The 32 bytes of `b` from `pos` on.
fn copy_chunk(b: &[u8], pos: usize) -> (r: [u8; 32])
    requires
        pos + 32 <= b@.len(),
    ensures
        r@ == b@.subrange(pos as int, pos + 32),
{
    let mut c = [0u8; 32];
    let mut t: usize = 0;
    while t < 32
        invariant
            t <= 32,
            pos + 32 <= b.len(),
            forall|j: int| 0 <= j < t ==> c@[j] == b@[pos + j],
        decreases 32 - t,
    {
        c[t] = b[pos + t];
        t += 1;
    }
    assert(c@ =~= b@.subrange(pos as int, pos + 32));
    c
}

/// The bytes of `b` from `pos` on, right-aligned in 32 bytes after zeros.
fn pad_tail(b: &[u8], pos: usize) -> (r: [u8; 32])
    requires
        pos < b@.len() < pos + 32,
    ensures
        r@ == Seq::new((32 - (b@.len() - pos)) as nat, |i: int| 0u8) + b@.skip(pos as int),
{
    let rem = b.len() - pos;
    let mut c = [0u8; 32];
    let mut t: usize = 0;
    while t < rem
        invariant
            t <= rem,
            pos < b.len(),
            rem == b.len() - pos,
            rem < 32,
            forall|j: int| 0 <= j < 32 - rem ==> c@[j] == 0,
            forall|j: int| 0 <= j < t ==> c@[32 - rem + j] == #[trigger] b@[pos + j],
        decreases rem - t,
    {
        c[32 - rem + t] = b[pos + t];
        t += 1;
    }
    let ghost z = Seq::new((32 - rem) as nat, |i: int| 0u8);
    assert forall|j: int| 32 - rem <= j < 32 implies c@[j] == (z + b@.skip(pos as int))[j] by {
        let jj = j - (32 - rem);
        assert(c@[32 - rem + jj] == b@[pos + jj]);
    }
    assert(c@ =~= z + b@.skip(pos as int));
    c
}

/// Appends `src[from..]` to `v`.
fn push_bytes(v: &mut Vec<u8>, src: &[u8; 32], from: usize)
    requires
        from <= 32,
    ensures
        final(v)@ == old(v)@ + src@.skip(from as int),
{
    let ghost start = v@;
    let mut t: usize = from;
    while t < 32
        invariant
            from <= t <= 32,
            v@ == start + src@.subrange(from as int, t as int),
        decreases 32 - t,
    {
        v.push(src[t]);
        proof {
            assert(src@.subrange(from as int, t + 1) =~= src@.subrange(from as int, t as int).push(src@[t as int]));
            assert(start + src@.subrange(from as int, t + 1) =~= (start + src@.subrange(from as int, t as int)).push(src@[t as int]));
        }
        t += 1;
    }
    assert(src@.subrange(from as int, 32) =~= src@.skip(from as int));
}

/// A storage space: a key that distinguishes it, in the storage of `account`.
pub struct Storage<B: Burner> {
    pub account: Address,
    pub storage_key: Vec<u8>,
    pub burner: B,
}

/// A single slot of an account's storage.
pub struct StorageSlot<B: Burner> {
    account: Address,
    slot: U256,
    burner: B,
}

impl<B: Burner> Storage<B> {
    /// The physical slot of `key` in this space.
    pub open spec fn slot(&self, key: int) -> int {
        slot_of(self.storage_key@, key)
    }

    /// The value that `key` of this space reads as.
    pub open spec fn value_at(&self, db: InMemoryDB, key: int) -> int {
        slot_value(db, self.account.bytes@, self.slot(key))
    }

    /// The physical slot of `key`.
    pub fn map_address_key(&self, key: U256) -> (r: U256)
        ensures
            r.value() == self.slot(key.value()),
    {
        let kb = word_bytes(key);
        let mut input: Vec<u8> = Vec::new();
        let n = self.storage_key.len();
        let mut i: usize = 0;
        while i < n
            invariant
                n == self.storage_key@.len(),
                i <= n,
                input@ == self.storage_key@.take(i as int),
            decreases n - i,
        {
            input.push(self.storage_key[i]);
            proof {
                assert(self.storage_key@.take(i + 1) =~= self.storage_key@.take(i as int).push(self.storage_key@[i as int]));
            }
            i += 1;
        }
        let mut j: usize = 0;
        while j < 31
            invariant
                j <= 31,
                input@ == self.storage_key@ + kb@.take(j as int),
            decreases 31 - j,
        {
            input.push(kb[j]);
            proof {
                assert(kb@.take(j + 1) =~= kb@.take(j as int).push(kb@[j as int]));
                assert(self.storage_key@ + kb@.take(j + 1) =~= (self.storage_key@ + kb@.take(j as int)).push(kb@[j as int]));
            }
            j += 1;
        }
        assert(self.storage_key@.take(n as int) =~= self.storage_key@);
        let h = keccak256(input.as_slice());
        let mut mapped = [0u8; 32];
        let mut k: usize = 0;
        while k < 31
            invariant
                k <= 31,
                forall|t: int| 0 <= t < k ==> mapped@[t] == h@[t],
            decreases 31 - k,
        {
            mapped[k] = h[k];
            k += 1;
        }
        mapped[31] = kb[31];
        assert(mapped@ =~= h@.take(31).push(kb@[31]));
        u256_from_be_bytes(mapped)
    }

    /// The physical slot of offset `offset`.
    pub fn map_address(&self, offset: u64) -> (r: U256)
        ensures
            r.value() == self.slot(offset as int),
    {
        self.map_address_key(U256::from_u64(offset))
    }

    /// Reads offset `offset`.
    pub fn read_slot(&self, db: &InMemoryDB, offset: u64) -> (r: U256)
        ensures
            r.value() == self.value_at(*db, offset as int),
    {
        read_storage(db, self.account, self.map_address(offset))
    }

    /// Writes `value` at offset `offset`.
    pub fn write_slot(&self, db: &mut InMemoryDB, offset: u64, value: U256)
        ensures
            db_slot_written(*old(db), *final(db), self.account.bytes@, self.slot(offset as int), value.value()),
    {
        write_storage(db, self.account, self.map_address(offset), value)
    }

    /// Reads `key`.
    pub fn get_by_key(&self, db: &InMemoryDB, key: U256) -> (r: U256)
        ensures
            r.value() == self.value_at(*db, key.value()),
    {
        read_storage(db, self.account, self.map_address_key(key))
    }

    /// Writes `value` at `key`.
    pub fn set_by_key(&self, db: &mut InMemoryDB, key: U256, value: U256)
        ensures
            db_slot_written(*old(db), *final(db), self.account.bytes@, self.slot(key.value()), value.value()),
    {
        write_storage(db, self.account, self.map_address_key(key), value)
    }

    /// Writes zero at `key`.
    pub fn clear_by_key(&self, db: &mut InMemoryDB, key: U256)
        ensures
            db_slot_written(*old(db), *final(db), self.account.bytes@, self.slot(key.value()), 0),
    {
        self.set_by_key(db, key, U256::zero())
    }

    /// Reads `key` as a `u64`; the stored value must fit.
    pub fn get_uint64_by_key(&self, db: &InMemoryDB, key: U256) -> (r: u64)
        requires
            self.value_at(*db, key.value()) <= u64_max(),
        ensures
            r == self.value_at(*db, key.value()),
    {
        let v = self.get_by_key(db, key);
        v.l0
    }

    /// Reads offset `offset`.
    pub fn get_by_uint64(&self, db: &InMemoryDB, offset: u64) -> (r: U256)
        ensures
            r.value() == self.value_at(*db, offset as int),
    {
        self.read_slot(db, offset)
    }

    /// Reads offset `offset` as a `u64`; the stored value must fit.
    pub fn get_uint64_by_uint64(&self, db: &InMemoryDB, offset: u64) -> (r: u64)
        requires
            self.value_at(*db, offset as int) <= u64_max(),
        ensures
            r == self.value_at(*db, offset as int),
    {
        self.read_slot(db, offset).l0
    }

    /// Writes `value` at offset `offset`.
    pub fn set_by_uint64(&self, db: &mut InMemoryDB, offset: u64, value: U256)
        ensures
            db_slot_written(*old(db), *final(db), self.account.bytes@, self.slot(offset as int), value.value()),
    {
        self.write_slot(db, offset, value)
    }

    /// Writes the `u64` `value` at offset `offset`.
    pub fn set_uint64_by_uint64(&self, db: &mut InMemoryDB, offset: u64, value: u64)
        ensures
            db_slot_written(*old(db), *final(db), self.account.bytes@, self.slot(offset as int), value as int),
    {
        self.write_slot(db, offset, U256::from_u64(value))
    }

    /// Writes zero at offset `offset`.
    pub fn clear_by_uint64(&self, db: &mut InMemoryDB, offset: u64)
        ensures
            db_slot_written(*old(db), *final(db), self.account.bytes@, self.slot(offset as int), 0),
    {
        self.write_slot(db, offset, U256::zero())
    }

    /// Writes `new_value` at `key` and returns what was there.
    pub fn swap(&self, db: &mut InMemoryDB, key: U256, new_value: U256) -> (r: U256)
        ensures
            r.value() == self.value_at(*old(db), key.value()),
            db_slot_written(*old(db), *final(db), self.account.bytes@, self.slot(key.value()), new_value.value()),
    {
        let old_value = self.get_by_key(db, key);
        self.set_by_key(db, key, new_value);
        old_value
    }


    /// The length of the byte string kept in this space; it must fit a `u64`.
    pub fn get_bytes_size(&self, db: &InMemoryDB) -> (r: u64)
        requires
            self.value_at(*db, 0) <= u64_max(),
        ensures
            r == self.value_at(*db, 0),
    {
        self.get_uint64_by_uint64(db, 0)
    }

    /// The byte string kept in this space; its length must fit a `u64`.
    pub fn get_bytes(&self, db: &InMemoryDB) -> (r: Vec<u8>)
        requires
            self.value_at(*db, 0) <= u64_max(),
        ensures
            r@ == stored_bytes(*db, self.account.bytes@, self.storage_key@),
    {
        let len = self.get_bytes_size(db);
        let mut bytes_left = len;
        let mut result: Vec<u8> = Vec::new();
        let mut offset: u64 = 1;
        while bytes_left >= 32
            invariant
                1 <= offset,
                len == self.value_at(*db, 0),
                bytes_left + 32 * (offset - 1) == len,
                result@ == chunks_bytes(*db, self.account.bytes@, self.storage_key@, (offset - 1) as nat),
            decreases bytes_left,
        {
            let chunk = word_bytes(self.read_slot(db, offset));
            push_bytes(&mut result, &chunk, 0);
            assert(chunk@.skip(0) =~= chunk@);
            bytes_left -= 32;
            offset += 1;
        }
        if bytes_left > 0 {
            let chunk = word_bytes(self.read_slot(db, offset));
            push_bytes(&mut result, &chunk, (32 - bytes_left) as usize);
        } else {
            assert(result@ =~= result@ + Seq::<u8>::empty());
        }
        result
    }

    /// Sets offset 0 and every offset the kept byte string occupies to zero;
    /// its length must fit a `u64`.
    pub fn clear_bytes(&self, db: &mut InMemoryDB)
        requires
            self.value_at(*old(db), 0) <= u64_max(),
        ensures
            offsets_cleared(*old(db), *final(db), self.account.bytes@, self.storage_key@, 0, chunk_count(self.value_at(*old(db), 0))),
    {
        let ghost db0 = *db;
        let ghost acct = self.account.bytes@;
        let ghost sk = self.storage_key@;
        let len = self.get_bytes_size(db);
        let mut bytes_left = len;
        let mut offset: u64 = 1;
        while bytes_left > 0
            invariant
                1 <= offset,
                len == self.value_at(db0, 0),
                bytes_left == if len >= 32 * (offset - 1) { len - 32 * (offset - 1) } else { 0 },
                offset == 1 || len > 32 * (offset - 2),
                acct == self.account.bytes@,
                sk == self.storage_key@,
                offsets_cleared(db0, *db, acct, sk, 1, offset - 1),
            decreases bytes_left,
        {
            let ghost prev = *db;
            self.clear_by_uint64(db, offset);
            proof {
                assert forall|a: Seq<u8>, s: int|
                    #[trigger] slot_value(*db, a, s) == if a == acct && exists|k: int| 1 <= k <= offset && s == slot_of(sk, k) {
                        0
                    } else {
                        slot_value(db0, a, s)
                    } by {
                    if a == acct && s == slot_of(sk, offset as int) {
                        assert(exists|k: int| 1 <= k <= offset && s == slot_of(sk, k));
                    } else {
                        assert(slot_value(*db, a, s) == slot_value(prev, a, s));
                        if a == acct && exists|k: int| 1 <= k <= offset && s == slot_of(sk, k) {
                            let k = choose|k: int| 1 <= k <= offset && s == slot_of(sk, k);
                            assert(k != offset);
                            assert(exists|k2: int| 1 <= k2 <= offset - 1 && s == slot_of(sk, k2));
                        }
                    }
                }
            }
            offset += 1;
            bytes_left = bytes_left.saturating_sub(32);
        }
        let ghost prev = *db;
        self.clear_by_uint64(db, 0);
        proof {
            assert(chunk_count(len as int) == offset - 1);
            assert forall|a: Seq<u8>, s: int|
                #[trigger] slot_value(*db, a, s) == if a == acct && exists|k: int| 0 <= k <= offset - 1 && s == slot_of(sk, k) {
                    0
                } else {
                    slot_value(db0, a, s)
                } by {
                if a == acct && s == slot_of(sk, 0) {
                    assert(exists|k: int| 0 <= k <= offset - 1 && s == slot_of(sk, k));
                } else {
                    assert(slot_value(*db, a, s) == slot_value(prev, a, s));
                    if a == acct && exists|k: int| 0 <= k <= offset - 1 && s == slot_of(sk, k) {
                        let k = choose|k: int| 0 <= k <= offset - 1 && s == slot_of(sk, k);
                        assert(k != 0);
                        assert(exists|k2: int| 1 <= k2 <= offset - 1 && s == slot_of(sk, k2));
                    }
                    if exists|k2: int| 1 <= k2 <= offset - 1 && s == slot_of(sk, k2) {
                        let k2 = choose|k2: int| 1 <= k2 <= offset - 1 && s == slot_of(sk, k2);
                        assert(0 <= k2 <= offset - 1);
                    }
                }
            }
        }
    }

    /// Replaces the kept byte string by `b`: clears the old one, stores the
    /// length at offset 0, the full 32-byte chunks at offsets 1, 2, ..., and
    /// the remaining bytes right-aligned in the next offset. The old length
    /// must fit a `u64`.
    pub fn set_bytes(&self, db: &mut InMemoryDB, b: &[u8])
        requires
            self.value_at(*old(db), 0) <= u64_max(),
        ensures
            ({
                let oldc = chunk_count(self.value_at(*old(db), 0));
                let newc = chunk_count(b@.len() as int);
                &&& only_offsets_changed(*old(db), *final(db), self.account.bytes@, self.storage_key@, if oldc > newc { oldc } else { newc })
                &&& offsets_distinct(self.storage_key@, newc) ==> stored_bytes(*final(db), self.account.bytes@, self.storage_key@) == b@
                &&& offsets_distinct(self.storage_key@, newc) ==> self.value_at(*final(db), 0) == b@.len()
                &&& offsets_distinct(self.storage_key@, if oldc > newc { oldc } else { newc }) ==> forall|i: int|
                    newc < i <= oldc ==> #[trigger] self.value_at(*final(db), i) == 0
                &&& newc < 256 ==> stored_bytes(*final(db), self.account.bytes@, self.storage_key@) == b@
                &&& newc < 256 ==> self.value_at(*final(db), 0) == b@.len()
                &&& oldc < 256 && newc < 256 ==> forall|i: int| newc < i <= oldc ==> #[trigger] self.value_at(*final(db), i) == 0
            }),
    {
        let ghost db0 = *db;
        let ghost acct = self.account.bytes@;
        let ghost sk = self.storage_key@;
        let ghost oldc = chunk_count(self.value_at(db0, 0));
        let ghost newc = chunk_count(b@.len() as int);
        let ghost bound = if oldc > newc { oldc } else { newc };
        self.clear_bytes(db);
        let ghost db1 = *db;
        assert(only_offsets_changed(db0, db1, acct, sk, bound)) by {
            assert forall|a: Seq<u8>, s: int|
                !(a == acct && exists|k: int| 0 <= k <= bound && s == slot_of(sk, k)) implies #[trigger] slot_value(db1, a, s)
                    == slot_value(db0, a, s) by {
                if a == acct && exists|k: int| 0 <= k <= oldc && s == slot_of(sk, k) {
                    let k = choose|k: int| 0 <= k <= oldc && s == slot_of(sk, k);
                    assert(0 <= k <= bound);
                }
            }
        }
        let len = b.len() as u64;
        self.set_uint64_by_uint64(db, 0, len);
        proof {
            if offsets_distinct(sk, bound) {
                assert forall|i: int| newc < i <= oldc implies #[trigger] slot_value(*db, acct, slot_of(sk, i)) == 0 by {
                    assert(slot_of(sk, 0) != slot_of(sk, i));
                    assert(slot_value(db1, acct, slot_of(sk, i)) == 0);
                }
            }
            assert forall|a: Seq<u8>, s: int|
                !(a == acct && exists|k: int| 0 <= k <= bound && s == slot_of(sk, k)) implies #[trigger] slot_value(*db, a, s)
                    == slot_value(db0, a, s) by {
                if a == acct && s == slot_of(sk, 0) {
                    assert(0 <= 0 <= bound);
                }
                assert(slot_value(*db, a, s) == slot_value(db1, a, s));
            }
        }
        let mut offset: u64 = 1;
        let mut pos: usize = 0;
        while b.len() - pos >= 32
            invariant
                1 <= offset,
                pos == 32 * (offset - 1),
                pos <= b@.len(),
                len == b@.len(),
                acct == self.account.bytes@,
                sk == self.storage_key@,
                newc == chunk_count(b@.len() as int),
                bound >= newc,
                bound >= 0,
                crate::statedb::db_balances(*db) == crate::statedb::db_balances(db0),
                forall|a: Seq<u8>, s: int|
                    !(a == acct && exists|k: int| 0 <= k <= bound && s == slot_of(sk, k)) ==> #[trigger] slot_value(*db, a, s)
                        == slot_value(db0, a, s),
                offsets_distinct(sk, newc) ==> slot_value(*db, acct, slot_of(sk, 0)) == len,
                oldc == chunk_count(self.value_at(db0, 0)),
                bound == if oldc > newc { oldc } else { newc },
                offsets_distinct(sk, bound) ==> forall|i: int|
                    newc < i <= oldc ==> #[trigger] slot_value(*db, acct, slot_of(sk, i)) == 0,
                offsets_distinct(sk, newc) ==> forall|i: int|
                    1 <= i < offset ==> slot_value(*db, acct, slot_of(sk, i)) == be_value(
                        #[trigger] b@.subrange(32 * (i - 1), 32 * i),
                    ),
            decreases b@.len() - pos,
        {
            let ghost prev = *db;
            let chunk = copy_chunk(b, pos);
            self.write_slot(db, offset, u256_from_be_bytes(chunk));
            proof {
                assert(offset <= newc);
                if offsets_distinct(sk, bound) {
                    assert forall|i: int| newc < i <= oldc implies #[trigger] slot_value(*db, acct, slot_of(sk, i)) == 0 by {
                        assert(slot_of(sk, offset as int) != slot_of(sk, i));
                        assert(slot_value(prev, acct, slot_of(sk, i)) == 0);
                    }
                }
                assert forall|a: Seq<u8>, s: int|
                    !(a == acct && exists|k: int| 0 <= k <= bound && s == slot_of(sk, k)) implies #[trigger] slot_value(*db, a, s)
                        == slot_value(db0, a, s) by {
                    if a == acct && s == slot_of(sk, offset as int) {
                        assert(0 <= offset <= bound);
                    }
                    assert(slot_value(*db, a, s) == slot_value(prev, a, s));
                }
                if offsets_distinct(sk, newc) {
                    assert(slot_of(sk, 0) != slot_of(sk, offset as int));
                    assert forall|i: int|
                        1 <= i < offset + 1 implies slot_value(*db, acct, slot_of(sk, i)) == be_value(
                            #[trigger] b@.subrange(32 * (i - 1), 32 * i),
                        ) by {
                        if i < offset {
                            assert(slot_of(sk, i) != slot_of(sk, offset as int));
                        }
                    }
                }
            }
            pos += 32;
            offset += 1;
        }
        let ghost db2 = *db;
        if pos < b.len() {
            let padded = pad_tail(b, pos);
            self.write_slot(db, offset, u256_from_be_bytes(padded));
            proof {
                assert(offset <= newc);
                if offsets_distinct(sk, bound) {
                    assert forall|i: int| newc < i <= oldc implies #[trigger] slot_value(*db, acct, slot_of(sk, i)) == 0 by {
                        assert(slot_of(sk, offset as int) != slot_of(sk, i));
                        assert(slot_value(db2, acct, slot_of(sk, i)) == 0);
                    }
                }
                assert forall|a: Seq<u8>, s: int|
                    !(a == acct && exists|k: int| 0 <= k <= bound && s == slot_of(sk, k)) implies #[trigger] slot_value(*db, a, s)
                        == slot_value(db0, a, s) by {
                    if a == acct && s == slot_of(sk, offset as int) {
                        assert(0 <= offset <= bound);
                    }
                    assert(slot_value(*db, a, s) == slot_value(db2, a, s));
                }
            }
        }
        proof {
            let full = (len / 32) as nat;
            assert(full == offset - 1);
            if offsets_distinct(sk, newc) {
                if pos < b.len() {
                    assert(slot_of(sk, 0) != slot_of(sk, offset as int));
                    assert forall|i: int| 1 <= i <= full implies slot_value(*db, acct, slot_of(sk, i)) == be_value(
                        #[trigger] b@.subrange(32 * (i - 1), 32 * i),
                    ) by {
                        assert(slot_of(sk, i) != slot_of(sk, offset as int));
                    }
                }
                lemma_chunks_bytes(*db, acct, sk, b@, full);
                if pos < b.len() {
                    let padded = Seq::new((32 - (b@.len() - pos)) as nat, |i: int| 0u8) + b@.skip(pos as int);
                    lemma_bytes32_of(padded, be_value(padded));
                    assert(padded.skip(32 - (len % 32)) =~= b@.skip(pos as int));
                    assert(b@.take(pos as int) + b@.skip(pos as int) =~= b@);
                } else {
                    assert(b@.take(pos as int) =~= b@);
                }
            }
        }
        proof {
            if newc < 256 {
                law_first_offsets_distinct(sk, newc);
            }
            if bound < 256 {
                law_first_offsets_distinct(sk, bound);
            }
        }
    }

    /// The child space `id`.
    pub fn open_sub_storage(&self, id: &[u8]) -> (r: Storage<B>)
        where
            B: Clone,
        ensures
            r.account == self.account,
            r.storage_key@ == sub_storage_key(self.storage_key@, id@),
    {
        let mut input: Vec<u8> = Vec::new();
        let n = self.storage_key.len();
        let mut i: usize = 0;
        while i < n
            invariant
                n == self.storage_key@.len(),
                i <= n,
                input@ == self.storage_key@.take(i as int),
            decreases n - i,
        {
            input.push(self.storage_key[i]);
            proof {
                assert(self.storage_key@.take(i + 1) =~= self.storage_key@.take(i as int).push(self.storage_key@[i as int]));
            }
            i += 1;
        }
        let m = id.len();
        let mut j: usize = 0;
        while j < m
            invariant
                m == id@.len(),
                j <= m,
                input@ == self.storage_key@ + id@.take(j as int),
            decreases m - j,
        {
            input.push(id[j]);
            proof {
                assert(id@.take(j + 1) =~= id@.take(j as int).push(id@[j as int]));
                assert(self.storage_key@ + id@.take(j + 1) =~= (self.storage_key@ + id@.take(j as int)).push(id@[j as int]));
            }
            j += 1;
        }
        assert(self.storage_key@.take(n as int) =~= self.storage_key@);
        assert(id@.take(m as int) =~= id@);
        let h = keccak256(input.as_slice());
        let mut key: Vec<u8> = Vec::new();
        let mut k: usize = 0;
        while k < 32
            invariant
                k <= 32,
                key@ == h@.take(k as int),
            decreases 32 - k,
        {
            key.push(h[k]);
            proof {
                assert(h@.take(k + 1) =~= h@.take(k as int).push(h@[k as int]));
            }
            k += 1;
        }
        assert(h@.take(32) =~= h@);
        Storage { account: self.account, storage_key: key, burner: self.burner.clone() }
    }

    /// The child space `id`; the same space as `open_sub_storage` gives.
    pub fn open_cached_sub_storage(&self, id: &[u8]) -> (r: Storage<B>)
        where
            B: Clone,
        ensures
            r.account == self.account,
            r.storage_key@ == sub_storage_key(self.storage_key@, id@),
    {
        self.open_sub_storage(id)
    }

    /// A byte string kept in the child space `id`.
    pub fn open_storage_backed_bytes(&self, id: &[u8]) -> (r: StorageBackedBytes<B>)
        where
            B: Clone,
        ensures
            r.storage_view().account == self.account,
            r.storage_view().storage_key@ == sub_storage_key(self.storage_key@, id@),
    {
        StorageBackedBytes(self.open_sub_storage(id))
    }

    /// The slot at offset `offset`.
    pub fn new_slot(&self, offset: u64) -> (r: StorageSlot<B>)
        where
            B: Clone,
        ensures
            r.account_view() == self.account.bytes@,
            r.slot_view() == self.slot(offset as int),
    {
        StorageSlot { account: self.account, slot: self.map_address(offset), burner: self.burner.clone() }
    }

    /// A `u64` kept at offset `offset`.
    pub fn open_storage_backed_uint64(&self, offset: u64) -> (r: StorageBackedUint64<B>)
        where
            B: Clone,
        ensures
            r.account_view() == self.account.bytes@,
            r.slot_view() == self.slot(offset as int),
    {
        StorageBackedUint64(self.new_slot(offset))
    }

    /// A `u32` kept at offset `offset`.
    pub fn open_storage_backed_uint32(&self, offset: u64) -> (r: StorageBackedUint32<B>)
        where
            B: Clone,
        ensures
            r.account_view() == self.account.bytes@,
            r.slot_view() == self.slot(offset as int),
    {
        StorageBackedUint32(self.new_slot(offset))
    }

    /// An `i64` kept at offset `offset`.
    pub fn open_storage_backed_int64(&self, offset: u64) -> (r: StorageBackedInt64<B>)
        where
            B: Clone,
        ensures
            r.account_view() == self.account.bytes@,
            r.slot_view() == self.slot(offset as int),
    {
        StorageBackedInt64(self.new_slot(offset))
    }

    /// An unsigned word kept at offset `offset`.
    pub fn open_storage_backed_big_uint(&self, offset: u64) -> (r: StorageBackedBigUint<B>)
        where
            B: Clone,
        ensures
            r.account_view() == self.account.bytes@,
            r.slot_view() == self.slot(offset as int),
    {
        StorageBackedBigUint(self.new_slot(offset))
    }

    /// A signed word kept at offset `offset`.
    pub fn open_storage_backed_big_int(&self, offset: u64) -> (r: StorageBackedBigInt<B>)
        where
            B: Clone,
        ensures
            r.account_view() == self.account.bytes@,
            r.slot_view() == self.slot(offset as int),
    {
        StorageBackedBigInt(self.new_slot(offset))
    }

    /// An address kept at offset `offset`.
    pub fn open_storage_backed_address(&self, offset: u64) -> (r: StorageBackedAddress<B>)
        where
            B: Clone,
        ensures
            r.account_view() == self.account.bytes@,
            r.slot_view() == self.slot(offset as int),
    {
        StorageBackedAddress(self.new_slot(offset))
    }

    /// An optional address kept at offset `offset`.
    pub fn open_storage_backed_address_or_nil(&self, offset: u64) -> (r: StorageBackedAddressOrNil<B>)
        where
            B: Clone,
        ensures
            r.account_view() == self.account.bytes@,
            r.slot_view() == self.slot(offset as int),
    {
        StorageBackedAddressOrNil(self.new_slot(offset))
    }
}

impl<B: Burner> StorageSlot<B> {
    /// The account whose storage holds the slot.
    pub closed spec fn account_view(&self) -> Seq<u8> {
        self.account.bytes@
    }

    /// The physical slot.
    pub closed spec fn slot_view(&self) -> int {
        self.slot.value()
    }

    /// The slot `slot` of `account`.
    pub fn new(account: Address, slot: U256, burner: B) -> (r: Self)
        ensures
            r.account_view() == account.bytes@,
            r.slot_view() == slot.value(),
    {
        StorageSlot { account, slot, burner }
    }

    /// Reads the slot.
    pub fn get(&self, db: &InMemoryDB) -> (r: U256)
        ensures
            r.value() == slot_value(*db, self.account_view(), self.slot_view()),
    {
        read_storage(db, self.account, self.slot)
    }

    /// Writes the slot.
    pub fn set(&mut self, db: &mut InMemoryDB, value: U256)
        ensures
            *final(self) == *old(self),
            db_slot_written(*old(db), *final(db), old(self).account_view(), old(self).slot_view(), value.value()),
    {
        write_storage(db, self.account, self.slot, value)
    }
}

/// An `i64` kept in one slot as the bits of a `u64`.
pub struct StorageBackedInt64<B: Burner>(StorageSlot<B>);

/// A `u32` kept in one slot.
pub struct StorageBackedUint32<B: Burner>(StorageSlot<B>);

/// A `u64` kept in one slot.
pub struct StorageBackedUint64<B: Burner>(StorageSlot<B>);

/// An unsigned word kept in one slot.
pub struct StorageBackedBigUint<B: Burner>(StorageSlot<B>);

/// A signed word kept in one slot in two's complement.
pub struct StorageBackedBigInt<B: Burner>(StorageSlot<B>);

/// An address kept in the low 20 bytes of one slot.
pub struct StorageBackedAddress<B: Burner>(StorageSlot<B>);

/// An optional address kept in one slot; 2^255 stands for none.
pub struct StorageBackedAddressOrNil<B: Burner>(StorageSlot<B>);

/// A byte string kept in a storage space of its own.
pub struct StorageBackedBytes<B: Burner>(Storage<B>);

impl<B: Burner> StorageBackedBytes<B> {
    /// The space that holds the bytes.
    pub closed spec fn storage_view(&self) -> Storage<B> {
        self.0
    }

    /// The bytes kept in the space `sto`.
    pub fn new(sto: Storage<B>) -> (r: Self)
        ensures
            r.storage_view() == sto,
    {
        StorageBackedBytes(sto)
    }

    /// The length of the kept bytes; it must fit a `u64`.
    pub fn size(&self, db: &InMemoryDB) -> (r: u64)
        requires
            self.storage_view().value_at(*db, 0) <= u64_max(),
        ensures
            r == self.storage_view().value_at(*db, 0),
    {
        self.0.get_bytes_size(db)
    }

    /// The kept bytes; their length must fit a `u64`.
    pub fn get(&self, db: &InMemoryDB) -> (r: Vec<u8>)
        requires
            self.storage_view().value_at(*db, 0) <= u64_max(),
        ensures
            r@ == stored_bytes(*db, self.storage_view().account.bytes@, self.storage_view().storage_key@),
    {
        self.0.get_bytes(db)
    }

    /// Sets the length and every chunk of the kept bytes to zero.
    pub fn clear(&self, db: &mut InMemoryDB)
        requires
            self.storage_view().value_at(*old(db), 0) <= u64_max(),
        ensures
            offsets_cleared(
                *old(db),
                *final(db),
                self.storage_view().account.bytes@,
                self.storage_view().storage_key@,
                0,
                chunk_count(self.storage_view().value_at(*old(db), 0)),
            ),
    {
        self.0.clear_bytes(db)
    }

    /// Replaces the kept bytes by `b`.
    pub fn set(&self, db: &mut InMemoryDB, b: &[u8])
        requires
            self.storage_view().value_at(*old(db), 0) <= u64_max(),
        ensures
            ({
                let sto = self.storage_view();
                let oldc = chunk_count(sto.value_at(*old(db), 0));
                let newc = chunk_count(b@.len() as int);
                &&& only_offsets_changed(*old(db), *final(db), sto.account.bytes@, sto.storage_key@, if oldc > newc { oldc } else { newc })
                &&& offsets_distinct(sto.storage_key@, newc) ==> stored_bytes(*final(db), sto.account.bytes@, sto.storage_key@) == b@
                &&& offsets_distinct(sto.storage_key@, newc) ==> sto.value_at(*final(db), 0) == b@.len()
            }),
    {
        self.0.set_bytes(db, b)
    }
}

impl<B: Burner> StorageBackedInt64<B> {
    /// The account whose storage holds the value.
    pub closed spec fn account_view(&self) -> Seq<u8> {
        self.0.account_view()
    }

    /// The physical slot.
    pub closed spec fn slot_view(&self) -> int {
        self.0.slot_view()
    }

    /// The stored value; it must fit a `u64`, whose bits are the `i64`.
    pub fn get(&self, db: &InMemoryDB) -> (r: i64)
        requires
            slot_value(*db, self.account_view(), self.slot_view()) <= u64_max(),
        ensures
            r == (slot_value(*db, self.account_view(), self.slot_view()) as u64) as i64,
    {
        let raw = self.0.get(db);
        raw.l0 as i64
    }

    /// Stores the bits of `value` as a `u64`.
    pub fn set(&mut self, db: &mut InMemoryDB, value: i64)
        ensures
            *final(self) == *old(self),
            db_slot_written(*old(db), *final(db), old(self).account_view(), old(self).slot_view(), (value as u64) as int),
    {
        self.0.set(db, U256::from_u64(value as u64))
    }
}

impl<B: Burner> StorageBackedUint32<B> {
    /// The account whose storage holds the value.
    pub closed spec fn account_view(&self) -> Seq<u8> {
        self.0.account_view()
    }

    /// The physical slot.
    pub closed spec fn slot_view(&self) -> int {
        self.0.slot_view()
    }

    /// The stored value; it must fit a `u32`.
    pub fn get(&self, db: &InMemoryDB) -> (r: u32)
        requires
            slot_value(*db, self.account_view(), self.slot_view()) <= u32::MAX,
        ensures
            r == slot_value(*db, self.account_view(), self.slot_view()),
    {
        let raw = self.0.get(db);
        raw.l0 as u32
    }

    /// Stores `value`.
    pub fn set(&mut self, db: &mut InMemoryDB, value: u32)
        ensures
            *final(self) == *old(self),
            db_slot_written(*old(db), *final(db), old(self).account_view(), old(self).slot_view(), value as int),
    {
        self.0.set(db, U256::from_u64(value as u64))
    }

    /// Stores zero.
    pub fn clear(&mut self, db: &mut InMemoryDB)
        ensures
            *final(self) == *old(self),
            db_slot_written(*old(db), *final(db), old(self).account_view(), old(self).slot_view(), 0),
    {
        self.set(db, 0)
    }
}

impl<B: Burner> StorageBackedUint64<B> {
    /// The account whose storage holds the value.
    pub closed spec fn account_view(&self) -> Seq<u8> {
        self.0.account_view()
    }

    /// The physical slot.
    pub closed spec fn slot_view(&self) -> int {
        self.0.slot_view()
    }

    /// The stored value; it must fit a `u64`.
    pub fn get(&self, db: &InMemoryDB) -> (r: u64)
        requires
            slot_value(*db, self.account_view(), self.slot_view()) <= u64_max(),
        ensures
            r == slot_value(*db, self.account_view(), self.slot_view()),
    {
        let raw = self.0.get(db);
        raw.l0
    }

    /// Stores `value`.
    pub fn set(&mut self, db: &mut InMemoryDB, value: u64)
        ensures
            *final(self) == *old(self),
            db_slot_written(*old(db), *final(db), old(self).account_view(), old(self).slot_view(), value as int),
    {
        self.0.set(db, U256::from_u64(value))
    }

    /// Stores zero.
    pub fn clear(&mut self, db: &mut InMemoryDB)
        ensures
            *final(self) == *old(self),
            db_slot_written(*old(db), *final(db), old(self).account_view(), old(self).slot_view(), 0),
    {
        self.set(db, 0)
    }

    /// Adds one to the stored value and returns the new value; the stored
    /// value must be below `u64::MAX`.
    pub fn increment(&mut self, db: &mut InMemoryDB) -> (r: u64)
        requires
            slot_value(*old(db), old(self).account_view(), old(self).slot_view()) < u64_max(),
        ensures
            *final(self) == *old(self),
            r == slot_value(*old(db), old(self).account_view(), old(self).slot_view()) + 1,
            db_slot_written(*old(db), *final(db), old(self).account_view(), old(self).slot_view(), r as int),
    {
        let old_value = self.get(db);
        let new_value = old_value + 1;
        self.set(db, new_value);
        new_value
    }

    /// Subtracts one from the stored value and returns the new value; the
    /// stored value must be above zero and fit a `u64`.
    pub fn decrement(&mut self, db: &mut InMemoryDB) -> (r: u64)
        requires
            0 < slot_value(*old(db), old(self).account_view(), old(self).slot_view()) <= u64_max(),
        ensures
            *final(self) == *old(self),
            r == slot_value(*old(db), old(self).account_view(), old(self).slot_view()) - 1,
            db_slot_written(*old(db), *final(db), old(self).account_view(), old(self).slot_view(), r as int),
    {
        let old_value = self.get(db);
        let new_value = old_value - 1;
        self.set(db, new_value);
        new_value
    }
}

impl<B: Burner> StorageBackedBigUint<B> {
    /// The account whose storage holds the value.
    pub closed spec fn account_view(&self) -> Seq<u8> {
        self.0.account_view()
    }

    /// The physical slot.
    pub closed spec fn slot_view(&self) -> int {
        self.0.slot_view()
    }

    /// The stored word.
    pub fn get(&self, db: &InMemoryDB) -> (r: U256)
        ensures
            r.value() == slot_value(*db, self.account_view(), self.slot_view()),
    {
        self.0.get(db)
    }

    /// Stores `val` (every word is in range).
    pub fn set_checked(&mut self, db: &mut InMemoryDB, val: U256)
        ensures
            *final(self) == *old(self),
            db_slot_written(*old(db), *final(db), old(self).account_view(), old(self).slot_view(), val.value()),
    {
        self.0.set(db, val)
    }

    /// Stores `val` (every word is in range, so nothing saturates).
    pub fn set_saturating_with_warning(&mut self, db: &mut InMemoryDB, val: U256, name: &str)
        ensures
            *final(self) == *old(self),
            db_slot_written(*old(db), *final(db), old(self).account_view(), old(self).slot_view(), val.value()),
    {
        self.0.set(db, val)
    }
}

impl<B: Burner> StorageBackedBigInt<B> {
    /// The account whose storage holds the value.
    pub closed spec fn account_view(&self) -> Seq<u8> {
        self.0.account_view()
    }

    /// The physical slot.
    pub closed spec fn slot_view(&self) -> int {
        self.0.slot_view()
    }

    /// Another handle on the same slot.
    pub fn duplicate(&self) -> (r: Self)
        where
            B: Clone,
        ensures
            r.account_view() == self.account_view(),
            r.slot_view() == self.slot_view(),
    {
        StorageBackedBigInt(StorageSlot { account: self.0.account, slot: self.0.slot, burner: self.0.burner.clone() })
    }

    /// The stored signed word (the slot's bits read in two's complement).
    pub fn get(&self, db: &InMemoryDB) -> (r: I256)
        ensures
            r.raw.value() == slot_value(*db, self.account_view(), self.slot_view()),
    {
        I256::from_raw(self.0.get(db))
    }

    /// Stores the two's-complement bits of `val`.
    pub fn set_checked(&mut self, db: &mut InMemoryDB, val: I256)
        ensures
            *final(self) == *old(self),
            db_slot_written(*old(db), *final(db), old(self).account_view(), old(self).slot_view(), val.raw.value()),
    {
        self.0.set(db, val.into_raw())
    }

    /// Stores the two's-complement bits of `val` (every signed word is in
    /// range, so nothing saturates).
    pub fn set_saturating_with_warning(&mut self, db: &mut InMemoryDB, val: I256, name: &str)
        ensures
            *final(self) == *old(self),
            db_slot_written(*old(db), *final(db), old(self).account_view(), old(self).slot_view(), val.raw.value()),
    {
        self.0.set(db, val.into_raw())
    }

    /// The format before version 7: stores the magnitude of `val`.
    pub fn set_pre_version7(&mut self, db: &mut InMemoryDB, val: I256)
        ensures
            *final(self) == *old(self),
            db_slot_written(*old(db), *final(db), old(self).account_view(), old(self).slot_view(), crate::word::abs(val.value())),
    {
        self.0.set(db, i256_unsigned_abs(val))
    }

    /// Stores the non-negative value `val`.
    pub fn set_by_uint(&mut self, db: &mut InMemoryDB, val: u64)
        ensures
            *final(self) == *old(self),
            db_slot_written(*old(db), *final(db), old(self).account_view(), old(self).slot_view(), val as int),
    {
        self.0.set(db, U256::from_u64(val))
    }
}

impl<B: Burner> StorageBackedAddress<B> {
    /// The account whose storage holds the value.
    pub closed spec fn account_view(&self) -> Seq<u8> {
        self.0.account_view()
    }

    /// The physical slot.
    pub closed spec fn slot_view(&self) -> int {
        self.0.slot_view()
    }

    /// The address in the low 20 bytes of the slot.
    pub fn get(&self, db: &InMemoryDB) -> (r: Address)
        ensures
            r.bytes@ == word_address(slot_value(*db, self.account_view(), self.slot_view())),
    {
        word_to_address(self.0.get(db))
    }

    /// Stores `val` in the low 20 bytes of the slot, the rest zero.
    pub fn set(&mut self, db: &mut InMemoryDB, val: Address)
        ensures
            *final(self) == *old(self),
            db_slot_written(*old(db), *final(db), old(self).account_view(), old(self).slot_view(), address_word(val.bytes@)),
    {
        self.0.set(db, address_to_word(val))
    }
}

impl<B: Burner> StorageBackedAddressOrNil<B> {
    /// The account whose storage holds the value.
    pub closed spec fn account_view(&self) -> Seq<u8> {
        self.0.account_view()
    }

    /// The physical slot.
    pub closed spec fn slot_view(&self) -> int {
        self.0.slot_view()
    }

    /// `None` where the slot holds 2^255, otherwise the address in its low 20 bytes.
    pub fn get(&self, db: &InMemoryDB) -> (r: Option<Address>)
        ensures
            ({
                let v = slot_value(*db, self.account_view(), self.slot_view());
                match r {
                    None => v == nil_address_word(),
                    Some(a) => v != nil_address_word() && a.bytes@ == word_address(v),
                }
            }),
    {
        let raw = self.0.get(db);
        let nil = U256 { l0: 0, l1: 0, l2: 0, l3: 0x8000_0000_0000_0000 };
        if raw.equals(&nil) {
            return None;
        }
        Some(word_to_address(raw))
    }

    /// Stores 2^255 for `None`, or the address in the low 20 bytes.
    pub fn set(&mut self, db: &mut InMemoryDB, val: Option<Address>)
        ensures
            *final(self) == *old(self),
            db_slot_written(
                *old(db),
                *final(db),
                old(self).account_view(),
                old(self).slot_view(),
                match val {
                    None => nil_address_word(),
                    Some(a) => address_word(a.bytes@),
                },
            ),
    {
        let raw = match val {
            None => U256 { l0: 0, l1: 0, l2: 0, l3: 0x8000_0000_0000_0000 },
            Some(a) => address_to_word(a),
        };
        self.0.set(db, raw)
    }
}

} // verus!
