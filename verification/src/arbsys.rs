//! The ArbSys precompile (address 0x64): L1-to-L2 address aliasing, the
//! function selectors, the ABI words it reads and writes, and the dispatch on
//! the selector over the facts of the calling context.
use vstd::prelude::*;
use vstd::string::StringSliceAdditionalSpecFns;

use crate::multigas::u64_max;
use crate::poster_cost::pow256;
use crate::storage::{be_value, bytes32_of, keccak256, keccak256_spec, lemma_bytes32_of, u256_from_be_bytes, word_bytes};
use crate::word::{u256_wrapping_sub, Address, B256, U256};

verus! {

/// The precompile's address, 0x0000000000000000000000000000000000000064.
pub fn arbsys_address() -> (r: Address)
    ensures
        r.bytes@ == Seq::new(19, |i: int| 0u8).push(0x64u8),
{
    let mut bytes = [0u8; 20];
    bytes[19] = 0x64;
    assert(bytes@ =~= Seq::new(19, |i: int| 0u8).push(0x64u8));
    Address { bytes }
}

/// 2^160, one more than the largest address.
pub open spec fn address_modulus() -> int {
    pow256(20) as int
}

/// The byte at `i` of the alias offset 0x1111000000000000000000000000000000001111.
pub open spec fn alias_offset_byte_spec(i: int) -> u8 {
    if i < 2 || i >= 18 {
        0x11u8
    } else {
        0u8
    }
}

/// The twenty bytes of the alias offset.
pub open spec fn alias_offset() -> Seq<u8> {
    Seq::new(20, |i: int| alias_offset_byte_spec(i))
}

/// The number of an address whose L1 number is `a`, seen on L2: `a` plus the
/// offset, modulo 2^160.
pub open spec fn aliased(a: int) -> int {
    (a + be_value(alias_offset())) % address_modulus()
}

/// The inverse: `a` minus the offset, modulo 2^160.
pub open spec fn unaliased(a: int) -> int {
    (a - be_value(alias_offset())) % address_modulus()
}

/// The byte at `i` of the alias offset.
fn alias_offset_byte(i: usize) -> (r: u8)
    requires
        i < 20,
    ensures
        r == alias_offset()[i as int],
{
    if i < 2 || i >= 18 {
        0x11
    } else {
        0
    }
}

/// A byte in front of `t` adds its value times 256^len(t).
proof fn lemma_be_prepend(x: u8, t: Seq<u8>)
    ensures
        be_value(seq![x] + t) == x * pow256(t.len()) + be_value(t),
    decreases t.len(),
{
    if t.len() == 0 {
        assert(seq![x] + t =~= seq![x]);
        assert(seq![x].drop_last() =~= Seq::<u8>::empty());
        assert(pow256(0) == 1);
        assert(be_value(Seq::<u8>::empty()) == 0);
        assert(seq![x].last() == x);
        assert(be_value(seq![x]) == x);
        assert(be_value(t) == 0);
    } else {
        let u = seq![x] + t;
        assert(u.drop_last() =~= seq![x] + t.drop_last());
        assert(u.last() == t.last());
        lemma_be_prepend(x, t.drop_last());
        let p = pow256((t.len() - 1) as nat);
        assert(pow256(t.len()) == 256 * p);
        assert((x * p) * 256 == x * (256 * p)) by (nonlinear_arith);
    }
}

/// A big-endian number of `n` bytes is below 256^n.
pub(crate) proof fn lemma_be_bound(s: Seq<u8>)
    ensures
        0 <= be_value(s) < pow256(s.len()),
    decreases s.len(),
{
    if s.len() > 0 {
        lemma_be_bound(s.drop_last());
    }
}

/// One digit of a sum or difference: a value split into its low byte and
/// the rest, times a place value.
proof fn lemma_digit(s: int, p: int)
    ensures
        (s % 256) * p + (s / 256) * (256 * p) == s * p,
{
    let q = s / 256;
    let r = s % 256;
    assert(s == 256 * q + r);
    assert(r * p + q * (256 * p) == (r + 256 * q) * p) by (nonlinear_arith);
}

/// The suffix from `k` is the byte at `k` in front of the suffix from `k + 1`.
proof fn lemma_skip_split(s: Seq<u8>, k: int)
    requires
        0 <= k < s.len(),
    ensures
        be_value(s.skip(k)) == s[k] * pow256((s.len() - k - 1) as nat) + be_value(s.skip(k + 1)),
{
    assert(s.skip(k) =~= seq![s[k]] + s.skip(k + 1));
    lemma_be_prepend(s[k], s.skip(k + 1));
}

/// The modulus is positive and the offset lies below it.
proof fn lemma_address_modulus()
    ensures
        address_modulus() > 0,
        0 <= be_value(alias_offset()) < address_modulus(),
{
    crate::poster_cost::lemma_pow256_mono(0, 20);
    lemma_be_bound(alias_offset());
}

/// `x` is `q` times `m` plus `r`, with `r` in [0, m): so `x % m == r`.
proof fn lemma_mod_of(x: int, m: int, q: int, r: int)
    requires
        m > 0,
        0 <= r < m,
        x == q * m + r,
    ensures
        x % m == r,
{
    vstd::arithmetic::div_mod::lemma_fundamental_div_mod_converse(x, m, q, r);
}

/// Applies the L1-to-L2 address alias: adds the offset to the address,
/// byte by byte from the last, dropping the final carry.
pub fn apply_l1_to_l2_alias(addr: Address) -> (r: Address)
    ensures
        be_value(r.bytes@) == aliased(be_value(addr.bytes@)),
{
    let mut bytes: [u8; 20] = addr.bytes;
    let mut carry: u16 = 0;
    let mut i: usize = 20;
    while i > 0
        invariant
            i <= 20,
            carry <= 1,
            forall|j: int| 0 <= j < i ==> bytes@[j] == addr.bytes@[j],
            be_value(bytes@.skip(i as int)) + carry * pow256((20 - i) as nat) == be_value(addr.bytes@.skip(i as int))
                + be_value(alias_offset().skip(i as int)),
        decreases i,
    {
        i -= 1;
        let ghost before = bytes@;
        let ghost c = carry;
        let sum: u16 = bytes[i] as u16 + alias_offset_byte(i) as u16 + carry;
        bytes[i] = (sum % 256) as u8;
        carry = sum / 256;
        proof {
            let k = i as int;
            let p = pow256((19 - k) as nat) as int;
            assert(pow256((20 - k) as nat) == 256 * p);
            assert(bytes@.skip(k + 1) =~= before.skip(k + 1));
            lemma_skip_split(bytes@, k);
            lemma_skip_split(addr.bytes@, k);
            lemma_skip_split(alias_offset(), k);
            lemma_digit(sum as int, p);
            assert(sum as int * p == (addr.bytes@[k] + alias_offset()[k] + c) * p);
            assert((addr.bytes@[k] + alias_offset()[k] + c) * p == addr.bytes@[k] * p + alias_offset()[k] * p + c * p)
                by (nonlinear_arith);
        }
    }
    proof {
        assert(bytes@.skip(0) =~= bytes@);
        assert(addr.bytes@.skip(0) =~= addr.bytes@);
        assert(alias_offset().skip(0) =~= alias_offset());
        lemma_be_bound(bytes@);
        lemma_be_bound(addr.bytes@);
        lemma_address_modulus();
        let m = address_modulus();
        let t = be_value(addr.bytes@) + be_value(alias_offset());
        if carry == 0 {
            lemma_mod_of(t, m, 0, be_value(bytes@));
        } else {
            lemma_mod_of(t, m, 1, be_value(bytes@));
        }
    }
    Address { bytes }
}

/// Reverses the L1-to-L2 address alias: subtracts the offset from the
/// address, byte by byte from the last, dropping the final borrow.
pub fn undo_l1_to_l2_alias(addr: Address) -> (r: Address)
    ensures
        be_value(r.bytes@) == unaliased(be_value(addr.bytes@)),
{
    let mut bytes: [u8; 20] = addr.bytes;
    let mut borrow: i16 = 0;
    let mut i: usize = 20;
    while i > 0
        invariant
            i <= 20,
            0 <= borrow <= 1,
            forall|j: int| 0 <= j < i ==> bytes@[j] == addr.bytes@[j],
            be_value(bytes@.skip(i as int)) - borrow * pow256((20 - i) as nat) == be_value(addr.bytes@.skip(i as int))
                - be_value(alias_offset().skip(i as int)),
        decreases i,
    {
        i -= 1;
        let ghost before = bytes@;
        let ghost b = borrow;
        let diff: i16 = bytes[i] as i16 - alias_offset_byte(i) as i16 - borrow;
        if diff < 0 {
            bytes[i] = (diff + 256) as u8;
            borrow = 1;
        } else {
            bytes[i] = diff as u8;
            borrow = 0;
        }
        proof {
            let k = i as int;
            let p = pow256((19 - k) as nat) as int;
            assert(pow256((20 - k) as nat) == 256 * p);
            assert(bytes@.skip(k + 1) =~= before.skip(k + 1));
            lemma_skip_split(bytes@, k);
            lemma_skip_split(addr.bytes@, k);
            lemma_skip_split(alias_offset(), k);
            let v = bytes@[k] as int;
            assert(v == diff + 256 * borrow);
            assert(v * p - borrow * (256 * p) == diff * p) by (nonlinear_arith)
                requires
                    v == diff + 256 * borrow,
            ;
            assert(diff * p == addr.bytes@[k] * p - alias_offset()[k] * p - b * p) by (nonlinear_arith)
                requires
                    diff == addr.bytes@[k] - alias_offset()[k] - b,
            ;
        }
    }
    proof {
        assert(bytes@.skip(0) =~= bytes@);
        assert(addr.bytes@.skip(0) =~= addr.bytes@);
        assert(alias_offset().skip(0) =~= alias_offset());
        lemma_be_bound(bytes@);
        lemma_be_bound(addr.bytes@);
        lemma_address_modulus();
        let m = address_modulus();
        let t = be_value(addr.bytes@) - be_value(alias_offset());
        if borrow == 0 {
            lemma_mod_of(t, m, 0, be_value(bytes@));
        } else {
            lemma_mod_of(t, m, -1, be_value(bytes@));
        }
    }
    Address { bytes }
}

/// Law: `isTopLevelCall()` answers, for no gas, a 32-byte ABI bool that is
/// true exactly when ArbSys is reached at call depth at most 2 (called by
/// the transaction's target straight from the EOA, or by the EOA itself),
/// whatever else the input holds and whatever the gas limit; this where its
/// selector is not one of those dispatched before it (keccak256 makes them
/// all differ).
pub proof fn law_is_top_level_call(env: ArbSysEnv, input: Seq<u8>, gas_limit: u64)
    requires
        input.len() >= 4,
        input.take(4) == sel_is_top_level_call(),
        sel_is_top_level_call() != sel_arb_block_number(),
        sel_is_top_level_call() != sel_arb_block_hash(),
        sel_is_top_level_call() != sel_arb_chain_id(),
        sel_is_top_level_call() != sel_arb_os_version(),
        sel_is_top_level_call() != sel_get_storage_gas_available(),
    ensures
        arbsys_outcome(env, input, gas_limit) matches ArbSysOutcome::Output(g, w) && g == 0 && w.len() == 32
            && be_value(w) == (if env.depth <= 2 {
            1int
        } else {
            0int
        }),
        env.depth <= 2 ==> arbsys_outcome(env, input, gas_limit) == ArbSysOutcome::Output(0, bytes32_of(1)),
{
    crate::storage::lemma_bytes32_of_word(0);
    crate::storage::lemma_bytes32_of_word(1);
}

/// Law: undoing the alias gives back the address that was aliased, and
/// aliasing gives back the address whose alias was undone; so the two are
/// inverse bijections on addresses.
pub proof fn law_alias_roundtrip(a: Seq<u8>, b: Seq<u8>)
    requires
        a.len() == 20,
        b.len() == 20,
    ensures
        be_value(b) == aliased(be_value(a)) ==> (unaliased(be_value(b)) == be_value(a)),
        be_value(b) == unaliased(be_value(a)) ==> (aliased(be_value(b)) == be_value(a)),
{
    lemma_address_modulus();
    lemma_be_bound(a);
    lemma_be_bound(b);
    let m = address_modulus();
    let o = be_value(alias_offset());
    let x = be_value(a);
    if x + o < m {
        lemma_mod_of(x + o, m, 0, x + o);
        lemma_mod_of(x, m, 0, x);
    } else {
        lemma_mod_of(x + o, m, 1, x + o - m);
        lemma_mod_of(x - m, m, -1, x);
    }
    if x - o >= 0 {
        lemma_mod_of(x - o, m, 0, x - o);
        lemma_mod_of(x, m, 0, x);
    } else {
        lemma_mod_of(x - o, m, -1, x - o + m);
        lemma_mod_of(x + m, m, 1, x);
    }
}

/// Law: the address that aliasing or undoing gives is fixed by its number,
/// so undoing the alias of an address gives back that very address.
pub proof fn law_alias_bytes_roundtrip(a: Seq<u8>, b: Seq<u8>, c: Seq<u8>)
    requires
        a.len() == 20,
        b.len() == 20,
        c.len() == 20,
        be_value(b) == aliased(be_value(a)),
        be_value(c) == unaliased(be_value(b)),
    ensures
        c == a,
{
    law_alias_roundtrip(a, b);
    crate::storage::lemma_be_value_injective(c, a);
}


// ---------------------------------------------------------------------------
// Function selectors
// ---------------------------------------------------------------------------

/// The selector of a function signature: the first four bytes of its keccak256 hash.
pub open spec fn selector_of(sig: Seq<u8>) -> Seq<u8> {
    keccak256_spec(sig).take(4)
}

/// The selector of the signature `sig`.
fn make_selector(sig: &str) -> (r: [u8; 4])
    ensures
        r@ == selector_of(sig.spec_bytes()),
{
    let h = keccak256(sig.as_bytes());
    let r = [h[0], h[1], h[2], h[3]];
    assert(r@ =~= h@.take(4));
    r
}

/// The selectors of the functions that ArbSys answers.
pub struct Selectors {
    pub arb_block_number: [u8; 4],
    pub arb_block_hash: [u8; 4],
    pub arb_chain_id: [u8; 4],
    pub arb_os_version: [u8; 4],
    pub get_storage_gas_available: [u8; 4],
    pub is_top_level_call: [u8; 4],
    pub map_l1_sender_to_l2_alias: [u8; 4],
    pub was_my_callers_aliased: [u8; 4],
    pub my_callers_without_aliasing: [u8; 4],
    pub send_tx_to_l1: [u8; 4],
    pub send_merkle_tree_state: [u8; 4],
    pub withdraw_eth: [u8; 4],
}

pub open spec fn sel_arb_block_number() -> Seq<u8> {
    selector_of("arbBlockNumber()".spec_bytes())
}

pub open spec fn sel_arb_block_hash() -> Seq<u8> {
    selector_of("arbBlockHash(uint256)".spec_bytes())
}

pub open spec fn sel_arb_chain_id() -> Seq<u8> {
    selector_of("arbChainID()".spec_bytes())
}

pub open spec fn sel_arb_os_version() -> Seq<u8> {
    selector_of("arbOSVersion()".spec_bytes())
}

pub open spec fn sel_get_storage_gas_available() -> Seq<u8> {
    selector_of("getStorageGasAvailable()".spec_bytes())
}

pub open spec fn sel_is_top_level_call() -> Seq<u8> {
    selector_of("isTopLevelCall()".spec_bytes())
}

pub open spec fn sel_map_l1_sender_to_l2_alias() -> Seq<u8> {
    selector_of("mapL1SenderContractAddressToL2Alias(address,address)".spec_bytes())
}

pub open spec fn sel_was_my_callers_aliased() -> Seq<u8> {
    selector_of("wasMyCallersAddressAliased()".spec_bytes())
}

pub open spec fn sel_my_callers_without_aliasing() -> Seq<u8> {
    selector_of("myCallersAddressWithoutAliasing()".spec_bytes())
}

pub open spec fn sel_send_tx_to_l1() -> Seq<u8> {
    selector_of("sendTxToL1(address,bytes)".spec_bytes())
}

pub open spec fn sel_send_merkle_tree_state() -> Seq<u8> {
    selector_of("sendMerkleTreeState()".spec_bytes())
}

pub open spec fn sel_withdraw_eth() -> Seq<u8> {
    selector_of("withdrawEth(address)".spec_bytes())
}

/// The selectors of ArbSys's functions, each from its Solidity signature.
pub fn selectors() -> (r: Selectors)
    ensures
        r.arb_block_number@ == sel_arb_block_number(),
        r.arb_block_hash@ == sel_arb_block_hash(),
        r.arb_chain_id@ == sel_arb_chain_id(),
        r.arb_os_version@ == sel_arb_os_version(),
        r.get_storage_gas_available@ == sel_get_storage_gas_available(),
        r.is_top_level_call@ == sel_is_top_level_call(),
        r.map_l1_sender_to_l2_alias@ == sel_map_l1_sender_to_l2_alias(),
        r.was_my_callers_aliased@ == sel_was_my_callers_aliased(),
        r.my_callers_without_aliasing@ == sel_my_callers_without_aliasing(),
        r.send_tx_to_l1@ == sel_send_tx_to_l1(),
        r.send_merkle_tree_state@ == sel_send_merkle_tree_state(),
        r.withdraw_eth@ == sel_withdraw_eth(),
{
    Selectors {
        arb_block_number: make_selector("arbBlockNumber()"),
        arb_block_hash: make_selector("arbBlockHash(uint256)"),
        arb_chain_id: make_selector("arbChainID()"),
        arb_os_version: make_selector("arbOSVersion()"),
        get_storage_gas_available: make_selector("getStorageGasAvailable()"),
        is_top_level_call: make_selector("isTopLevelCall()"),
        map_l1_sender_to_l2_alias: make_selector("mapL1SenderContractAddressToL2Alias(address,address)"),
        was_my_callers_aliased: make_selector("wasMyCallersAddressAliased()"),
        my_callers_without_aliasing: make_selector("myCallersAddressWithoutAliasing()"),
        send_tx_to_l1: make_selector("sendTxToL1(address,bytes)"),
        send_merkle_tree_state: make_selector("sendMerkleTreeState()"),
        withdraw_eth: make_selector("withdrawEth(address)"),
    }
}

// ---------------------------------------------------------------------------
// ABI words
// ---------------------------------------------------------------------------

/// Why an ArbSys call fails.
#[derive(Clone, Copy, Debug, PartialEq, Eq, Structural)]
pub enum ArbSysError {
    OutOfGas,
    CalldataTooShort,
    UnknownSelector,
    InvalidInputLength,
    InvalidBlockNumber,
    BlockNumberOutOfRange,
    WasMyCallersAliasedUnsupported,
    MyCallersWithoutAliasingUnsupported,
    SendTxToL1Unsupported,
    SendMerkleTreeStateUnsupported,
}

impl ArbSysError {
    /// The error's text; `None` for running out of gas, which has no text.
    pub fn message(&self) -> (r: Option<&'static str>)
        ensures
            r == match *self {
                ArbSysError::OutOfGas => None,
                ArbSysError::CalldataTooShort => Some("calldata too short"),
                ArbSysError::UnknownSelector => Some("unknown selector"),
                ArbSysError::InvalidInputLength => Some("invalid input length"),
                ArbSysError::InvalidBlockNumber => Some("invalid block number for ArbBlockHash"),
                ArbSysError::BlockNumberOutOfRange => Some("block number out of u64 range"),
                ArbSysError::WasMyCallersAliasedUnsupported => Some(
                    "wasMyCallersAddressAliased requires ArbOS tx-processor state",
                ),
                ArbSysError::MyCallersWithoutAliasingUnsupported => Some(
                    "myCallersAddressWithoutAliasing requires ArbOS tx-processor state",
                ),
                ArbSysError::SendTxToL1Unsupported => Some("sendTxToL1 requires ArbOS state (outbox Merkle accumulator)"),
                ArbSysError::SendMerkleTreeStateUnsupported => Some(
                    "sendMerkleTreeState requires ArbOS state (Merkle accumulator)",
                ),
            },
    {
        match self {
            ArbSysError::OutOfGas => None,
            ArbSysError::CalldataTooShort => Some("calldata too short"),
            ArbSysError::UnknownSelector => Some("unknown selector"),
            ArbSysError::InvalidInputLength => Some("invalid input length"),
            ArbSysError::InvalidBlockNumber => Some("invalid block number for ArbBlockHash"),
            ArbSysError::BlockNumberOutOfRange => Some("block number out of u64 range"),
            ArbSysError::WasMyCallersAliasedUnsupported => Some(
                "wasMyCallersAddressAliased requires ArbOS tx-processor state",
            ),
            ArbSysError::MyCallersWithoutAliasingUnsupported => Some(
                "myCallersAddressWithoutAliasing requires ArbOS tx-processor state",
            ),
            ArbSysError::SendTxToL1Unsupported => Some("sendTxToL1 requires ArbOS state (outbox Merkle accumulator)"),
            ArbSysError::SendMerkleTreeStateUnsupported => Some(
                "sendMerkleTreeState requires ArbOS state (Merkle accumulator)",
            ),
        }
    }
}

/// Zero bytes in front leave a big-endian number unchanged.
pub(crate) proof fn lemma_be_zeros_prefix(n: nat, s: Seq<u8>)
    ensures
        be_value(Seq::new(n, |i: int| 0u8) + s) == be_value(s),
    decreases n,
{
    if n > 0 {
        let z = Seq::new(n, |i: int| 0u8);
        let z1 = Seq::new((n - 1) as nat, |i: int| 0u8);
        assert(z + s =~= seq![0u8] + (z1 + s));
        lemma_be_prepend(0u8, z1 + s);
        lemma_be_zeros_prefix((n - 1) as nat, s);
    } else {
        assert(Seq::new(n, |i: int| 0u8) + s =~= s);
    }
}

/// The word of 32 bytes in front of the arguments: its number.
fn decode_u256(data: &[u8]) -> (r: Result<U256, ArbSysError>)
    ensures
        data@.len() < 32 ==> r == Err::<U256, ArbSysError>(ArbSysError::InvalidInputLength),
        data@.len() >= 32 ==> (r matches Ok(v) && v.value() == be_value(data@.take(32))),
{
    if data.len() < 32 {
        return Err(ArbSysError::InvalidInputLength);
    }
    let mut b = [0u8; 32];
    let mut i: usize = 0;
    while i < 32
        invariant
            i <= 32,
            data@.len() >= 32,
            forall|j: int| 0 <= j < i ==> b@[j] == data@[j],
        decreases 32 - i,
    {
        b[i] = data[i];
        i += 1;
    }
    assert(b@ =~= data@.take(32));
    Ok(u256_from_be_bytes(b))
}

/// The address in an ABI word in front of the arguments: its last 20 bytes.
fn decode_address(data: &[u8]) -> (r: Result<Address, ArbSysError>)
    ensures
        data@.len() < 32 ==> (r matches Err(e) && e == ArbSysError::InvalidInputLength),
        data@.len() >= 32 ==> (r matches Ok(a) && a.bytes@ == data@.subrange(12, 32)),
{
    if data.len() < 32 {
        return Err(ArbSysError::InvalidInputLength);
    }
    let mut a = [0u8; 20];
    let mut i: usize = 0;
    while i < 20
        invariant
            i <= 20,
            data@.len() >= 32,
            forall|j: int| 0 <= j < i ==> a@[j] == data@[12 + j],
        decreases 20 - i,
    {
        a[i] = data[12 + i];
        i += 1;
    }
    assert(a@ =~= data@.subrange(12, 32));
    Ok(Address { bytes: a })
}

/// The bytes of a 32-byte array, as a vector.
fn bytes32_vec(b: &[u8; 32]) -> (r: Vec<u8>)
    ensures
        r@ == b@,
{
    let mut out: Vec<u8> = Vec::new();
    let mut i: usize = 0;
    while i < 32
        invariant
            i <= 32,
            out@ == b@.take(i as int),
        decreases 32 - i,
    {
        out.push(b[i]);
        assert(out@ =~= b@.take(i + 1));
        i += 1;
    }
    assert(b@.take(32) =~= b@);
    out
}

/// The ABI word of a number.
fn encode_u256(val: U256) -> (r: Vec<u8>)
    ensures
        r@ == bytes32_of(val.value()),
{
    let b = word_bytes(val);
    bytes32_vec(&b)
}

/// The ABI word of a boolean: 1 or 0.
fn encode_bool(val: bool) -> (r: Vec<u8>)
    ensures
        r@ == bytes32_of(if val { 1 } else { 0 }),
{
    let mut out = [0u8; 32];
    out[31] = if val { 1 } else { 0 };
    proof {
        let v: u8 = if val { 1 } else { 0 };
        assert(out@ =~= Seq::new(31, |i: int| 0u8) + seq![v]);
        lemma_be_zeros_prefix(31, seq![v]);
        assert(seq![v].drop_last() =~= Seq::<u8>::empty());
        assert(be_value(Seq::<u8>::empty()) == 0);
        assert(be_value(seq![v]) == v);
        lemma_bytes32_of(out@, v as int);
    }
    bytes32_vec(&out)
}

/// The ABI word of a hash: its bytes.
fn encode_b256(val: B256) -> (r: Vec<u8>)
    ensures
        r@ == val.bytes@,
{
    bytes32_vec(&val.bytes)
}

/// The ABI word of an address: twelve zero bytes, then the address.
fn encode_address(addr: Address) -> (r: Vec<u8>)
    ensures
        r@ == bytes32_of(be_value(addr.bytes@)),
{
    let mut out = [0u8; 32];
    let mut i: usize = 0;
    while i < 20
        invariant
            i <= 20,
            forall|j: int| 0 <= j < 12 ==> out@[j] == 0,
            forall|j: int| 0 <= j < i ==> out@[12 + j] == addr.bytes@[j],
        decreases 20 - i,
    {
        out[12 + i] = addr.bytes[i];
        i += 1;
    }
    proof {
        assert(out@ =~= Seq::new(12, |i: int| 0u8) + addr.bytes@);
        lemma_be_zeros_prefix(12, addr.bytes@);
        lemma_bytes32_of(out@, be_value(addr.bytes@));
    }
    bytes32_vec(&out)
}

/// The value of a word as a `u64`; fails where it does not fit.
fn u256_to_u64(val: U256) -> (r: Result<u64, ArbSysError>)
    ensures
        val.value() <= u64_max() ==> (r matches Ok(v) && v == val.value()),
        val.value() > u64_max() ==> (r matches Err(e) && e == ArbSysError::BlockNumberOutOfRange),
{
    match val.to_u64() {
        Some(v) => Ok(v),
        None => Err(ArbSysError::BlockNumberOutOfRange),
    }
}

// ---------------------------------------------------------------------------
// Dispatch
// ---------------------------------------------------------------------------

/// What ArbSys reads of the calling context.
pub struct ArbSysEnv {
    /// The number of the current L2 block.
    pub block_number: U256,
    /// The chain's id.
    pub chain_id: u64,
    /// The depth of the EVM call stack at the precompile.
    pub depth: usize,
}

/// A successful answer: the gas it used and the bytes it returns.
pub struct ArbSysOutput {
    pub gas_used: u64,
    pub bytes: Vec<u8>,
}

/// What a call to ArbSys comes to: an answer or an error, or a request for
/// the hash of the given block, whose answer `block_hash_output` then makes.
pub enum ArbSysStep {
    Done(Result<ArbSysOutput, ArbSysError>),
    BlockHash(u64),
}

/// The outcome of a call, as plain values.
pub enum ArbSysOutcome {
    Output(u64, Seq<u8>),
    Failure(ArbSysError),
    LookUpBlockHash(u64),
}

/// The outcome that a step stands for.
pub open spec fn step_outcome(s: ArbSysStep) -> ArbSysOutcome {
    match s {
        ArbSysStep::Done(Ok(o)) => ArbSysOutcome::Output(o.gas_used, o.bytes@),
        ArbSysStep::Done(Err(e)) => ArbSysOutcome::Failure(e),
        ArbSysStep::BlockHash(n) => ArbSysOutcome::LookUpBlockHash(n),
    }
}

/// The gas that `arbBlockHash` costs.
pub const ARB_BLOCK_HASH_GAS: u64 = 20;

/// `arbBlockHash(uint256)`: the block must be one of the 256 before the
/// current one, and its number must fit a `u64`.
pub open spec fn block_hash_outcome(env: ArbSysEnv, args: Seq<u8>, gas_limit: u64) -> ArbSysOutcome {
    if gas_limit < ARB_BLOCK_HASH_GAS {
        ArbSysOutcome::Failure(ArbSysError::OutOfGas)
    } else if args.len() < 32 {
        ArbSysOutcome::Failure(ArbSysError::InvalidInputLength)
    } else {
        let requested = be_value(args.take(32));
        let current = env.block_number.value();
        if requested >= current || current - requested > 256 {
            ArbSysOutcome::Failure(ArbSysError::InvalidBlockNumber)
        } else if requested > u64_max() {
            ArbSysOutcome::Failure(ArbSysError::BlockNumberOutOfRange)
        } else {
            ArbSysOutcome::LookUpBlockHash(requested as u64)
        }
    }
}

/// The outcome of calling ArbSys with `input` in the context `env`: the
/// first four bytes select the function, the rest are its arguments; where
/// two selectors were equal, the first in this order is taken.
pub open spec fn arbsys_outcome(env: ArbSysEnv, input: Seq<u8>, gas_limit: u64) -> ArbSysOutcome {
    if input.len() < 4 {
        ArbSysOutcome::Failure(ArbSysError::CalldataTooShort)
    } else {
        let sel = input.take(4);
        let args = input.skip(4);
        if sel == sel_arb_block_number() {
            ArbSysOutcome::Output(0, bytes32_of(env.block_number.value()))
        } else if sel == sel_arb_block_hash() {
            block_hash_outcome(env, args, gas_limit)
        } else if sel == sel_arb_chain_id() {
            ArbSysOutcome::Output(0, bytes32_of(env.chain_id as int))
        } else if sel == sel_arb_os_version() {
            ArbSysOutcome::Output(0, bytes32_of(0))
        } else if sel == sel_get_storage_gas_available() {
            ArbSysOutcome::Output(0, bytes32_of(0))
        } else if sel == sel_is_top_level_call() {
            ArbSysOutcome::Output(0, bytes32_of(if env.depth <= 2 { 1 } else { 0 }))
        } else if sel == sel_map_l1_sender_to_l2_alias() {
            if args.len() < 32 {
                ArbSysOutcome::Failure(ArbSysError::InvalidInputLength)
            } else {
                ArbSysOutcome::Output(0, bytes32_of(aliased(be_value(args.subrange(12, 32)))))
            }
        } else if sel == sel_was_my_callers_aliased() {
            ArbSysOutcome::Failure(ArbSysError::WasMyCallersAliasedUnsupported)
        } else if sel == sel_my_callers_without_aliasing() {
            ArbSysOutcome::Failure(ArbSysError::MyCallersWithoutAliasingUnsupported)
        } else if sel == sel_send_tx_to_l1() {
            ArbSysOutcome::Failure(ArbSysError::SendTxToL1Unsupported)
        } else if sel == sel_send_merkle_tree_state() {
            ArbSysOutcome::Failure(ArbSysError::SendMerkleTreeStateUnsupported)
        } else if sel == sel_withdraw_eth() {
            if args.len() < 32 {
                ArbSysOutcome::Failure(ArbSysError::InvalidInputLength)
            } else {
                ArbSysOutcome::Failure(ArbSysError::SendTxToL1Unsupported)
            }
        } else {
            ArbSysOutcome::Failure(ArbSysError::UnknownSelector)
        }
    }
}

/// Whether the first four bytes of `input` are `sel`.
fn selector_matches(input: &[u8], sel: &[u8; 4]) -> (r: bool)
    requires
        input@.len() >= 4,
    ensures
        r == (input@.take(4) == sel@),
{
    let mut i: usize = 0;
    while i < 4
        invariant
            i <= 4,
            input@.len() >= 4,
            forall|j: int| 0 <= j < i ==> input@[j] == sel@[j],
        decreases 4 - i,
    {
        if input[i] != sel[i] {
            assert(input@.take(4)[i as int] != sel@[i as int]);
            return false;
        }
        i += 1;
    }
    assert(input@.take(4) =~= sel@);
    true
}

/// The answer to `arbBlockHash` once the hash of the requested block is
/// known: the hash, or zero where the context has none.
pub fn block_hash_output(hash: Option<B256>) -> (r: ArbSysOutput)
    ensures
        r.gas_used == ARB_BLOCK_HASH_GAS,
        r.bytes@ == match hash {
            Some(h) => h.bytes@,
            None => Seq::new(32, |i: int| 0u8),
        },
{
    let h = match hash {
        Some(h) => h,
        None => B256 { bytes: [0u8; 32] },
    };
    proof {
        if hash is None {
            assert(h.bytes@ =~= Seq::new(32, |i: int| 0u8));
        }
    }
    ArbSysOutput { gas_used: ARB_BLOCK_HASH_GAS, bytes: encode_b256(h) }
}

/// `arbBlockHash(uint256)` up to the lookup of the hash.
fn arb_block_hash(env: &ArbSysEnv, args: &[u8], gas_limit: u64) -> (r: ArbSysStep)
    ensures
        step_outcome(r) == block_hash_outcome(*env, args@, gas_limit),
{
    if gas_limit < ARB_BLOCK_HASH_GAS {
        return ArbSysStep::Done(Err(ArbSysError::OutOfGas));
    }
    let requested = match decode_u256(args) {
        Ok(v) => v,
        Err(e) => {
            return ArbSysStep::Done(Err(e));
        },
    };
    let current = env.block_number;
    if current.le(&requested) || U256::from_u64(256).lt(&u256_wrapping_sub(current, requested)) {
        proof {
            if requested.value() < current.value() {
                let d = current.value() - requested.value();
                assert(0 < d < crate::word::p256());
                assert(d % crate::word::p256() == d);
            }
        }
        return ArbSysStep::Done(Err(ArbSysError::InvalidBlockNumber));
    }
    proof {
        let d = current.value() - requested.value();
        assert(0 < d < crate::word::p256());
        assert(d % crate::word::p256() == d);
    }
    match u256_to_u64(requested) {
        Ok(n) => ArbSysStep::BlockHash(n),
        Err(e) => ArbSysStep::Done(Err(e)),
    }
}

/// `mapL1SenderContractAddressToL2Alias(address,address)`: the alias of the
/// first argument; the second is not read.
fn map_l1_sender_to_l2_alias(args: &[u8]) -> (r: Result<ArbSysOutput, ArbSysError>)
    ensures
        args@.len() < 32 ==> (r matches Err(e) && e == ArbSysError::InvalidInputLength),
        args@.len() >= 32 ==> (r matches Ok(o) && o.gas_used == 0 && o.bytes@ == bytes32_of(
            aliased(be_value(args@.subrange(12, 32))),
        )),
{
    let sender = decode_address(args)?;
    let alias = apply_l1_to_l2_alias(sender);
    Ok(ArbSysOutput { gas_used: 0, bytes: encode_address(alias) })
}

/// `arbBlockNumber()`: the current L2 block number.
fn arb_block_number(env: &ArbSysEnv) -> (r: Result<ArbSysOutput, ArbSysError>)
    ensures
        r matches Ok(o) && o.gas_used == 0 && o.bytes@ == bytes32_of(env.block_number.value()),
{
    Ok(ArbSysOutput { gas_used: 0, bytes: encode_u256(env.block_number) })
}

/// `arbChainID()`: the chain's id.
fn arb_chain_id(env: &ArbSysEnv) -> (r: Result<ArbSysOutput, ArbSysError>)
    ensures
        r matches Ok(o) && o.gas_used == 0 && o.bytes@ == bytes32_of(env.chain_id as int),
{
    Ok(ArbSysOutput { gas_used: 0, bytes: encode_u256(U256::from_u64(env.chain_id)) })
}

/// `arbOSVersion()`: zero, as the ArbOS version is not part of the context.
fn arb_os_version() -> (r: Result<ArbSysOutput, ArbSysError>)
    ensures
        r matches Ok(o) && o.gas_used == 0 && o.bytes@ == bytes32_of(0),
{
    Ok(ArbSysOutput { gas_used: 0, bytes: encode_u256(U256::zero()) })
}

/// `getStorageGasAvailable()`: zero, as there is no storage gas.
fn get_storage_gas_available() -> (r: Result<ArbSysOutput, ArbSysError>)
    ensures
        r matches Ok(o) && o.gas_used == 0 && o.bytes@ == bytes32_of(0),
{
    Ok(ArbSysOutput { gas_used: 0, bytes: encode_u256(U256::zero()) })
}

/// `isTopLevelCall()`: whether the call depth is at most 2.
fn is_top_level_call(env: &ArbSysEnv) -> (r: Result<ArbSysOutput, ArbSysError>)
    ensures
        r matches Ok(o) && o.gas_used == 0 && o.bytes@ == bytes32_of(if env.depth <= 2 { 1 } else { 0 }),
{
    Ok(ArbSysOutput { gas_used: 0, bytes: encode_bool(env.depth <= 2) })
}

/// `wasMyCallersAddressAliased()`: needs the transaction processor's state,
/// which the context does not carry.
fn was_my_callers_aliased() -> (r: Result<ArbSysOutput, ArbSysError>)
    ensures
        r matches Err(e) && e == ArbSysError::WasMyCallersAliasedUnsupported,
{
    Err(ArbSysError::WasMyCallersAliasedUnsupported)
}

/// `myCallersAddressWithoutAliasing()`: needs the transaction processor's
/// state, which the context does not carry.
fn my_callers_without_aliasing() -> (r: Result<ArbSysOutput, ArbSysError>)
    ensures
        r matches Err(e) && e == ArbSysError::MyCallersWithoutAliasingUnsupported,
{
    Err(ArbSysError::MyCallersWithoutAliasingUnsupported)
}

/// `sendTxToL1(address,bytes)`: needs the outbox Merkle accumulator, which
/// the context does not carry.
fn send_tx_to_l1() -> (r: Result<ArbSysOutput, ArbSysError>)
    ensures
        r matches Err(e) && e == ArbSysError::SendTxToL1Unsupported,
{
    Err(ArbSysError::SendTxToL1Unsupported)
}

/// `sendMerkleTreeState()`: needs the Merkle accumulator, which the context
/// does not carry.
fn send_merkle_tree_state() -> (r: Result<ArbSysOutput, ArbSysError>)
    ensures
        r matches Err(e) && e == ArbSysError::SendMerkleTreeStateUnsupported,
{
    Err(ArbSysError::SendMerkleTreeStateUnsupported)
}

/// `withdrawEth(address)`: reads the destination, then fails as
/// `sendTxToL1` does.
fn withdraw_eth(args: &[u8]) -> (r: Result<ArbSysOutput, ArbSysError>)
    ensures
        args@.len() < 32 ==> (r matches Err(e) && e == ArbSysError::InvalidInputLength),
        args@.len() >= 32 ==> (r matches Err(e) && e == ArbSysError::SendTxToL1Unsupported),
{
    let _destination = decode_address(args)?;
    send_tx_to_l1()
}

/// Runs the ArbSys precompile on `input`, dispatching on its first four bytes.
pub fn run(env: &ArbSysEnv, input: &[u8], gas_limit: u64) -> (r: ArbSysStep)
    ensures
        step_outcome(r) == arbsys_outcome(*env, input@, gas_limit),
{
    if input.len() < 4 {
        return ArbSysStep::Done(Err(ArbSysError::CalldataTooShort));
    }
    let args = slice_skip(input, 4);
    let s = selectors();
    if selector_matches(input, &s.arb_block_number) {
        ArbSysStep::Done(arb_block_number(env))
    } else if selector_matches(input, &s.arb_block_hash) {
        arb_block_hash(env, args.as_slice(), gas_limit)
    } else if selector_matches(input, &s.arb_chain_id) {
        ArbSysStep::Done(arb_chain_id(env))
    } else if selector_matches(input, &s.arb_os_version) {
        ArbSysStep::Done(arb_os_version())
    } else if selector_matches(input, &s.get_storage_gas_available) {
        ArbSysStep::Done(get_storage_gas_available())
    } else if selector_matches(input, &s.is_top_level_call) {
        ArbSysStep::Done(is_top_level_call(env))
    } else if selector_matches(input, &s.map_l1_sender_to_l2_alias) {
        ArbSysStep::Done(map_l1_sender_to_l2_alias(args.as_slice()))
    } else if selector_matches(input, &s.was_my_callers_aliased) {
        ArbSysStep::Done(was_my_callers_aliased())
    } else if selector_matches(input, &s.my_callers_without_aliasing) {
        ArbSysStep::Done(my_callers_without_aliasing())
    } else if selector_matches(input, &s.send_tx_to_l1) {
        ArbSysStep::Done(send_tx_to_l1())
    } else if selector_matches(input, &s.send_merkle_tree_state) {
        ArbSysStep::Done(send_merkle_tree_state())
    } else if selector_matches(input, &s.withdraw_eth) {
        ArbSysStep::Done(withdraw_eth(args.as_slice()))
    } else {
        ArbSysStep::Done(Err(ArbSysError::UnknownSelector))
    }
}

/// The bytes of `s` from `from` on.
fn slice_skip(s: &[u8], from: usize) -> (r: Vec<u8>)
    requires
        from <= s@.len(),
    ensures
        r@ == s@.skip(from as int),
{
    let mut out: Vec<u8> = Vec::new();
    let mut i: usize = from;
    while i < s.len()
        invariant
            from <= i <= s@.len(),
            out@ == s@.subrange(from as int, i as int),
        decreases s@.len() - i,
    {
        out.push(s[i]);
        assert(out@ =~= s@.subrange(from as int, i + 1));
        i += 1;
    }
    assert(s@.subrange(from as int, s@.len() as int) =~= s@.skip(from as int));
    out
}

} // verus!
