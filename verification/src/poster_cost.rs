//! What a batch poster is charged for a transaction's L1 data: the
//! transaction's bytes compressed with brotli, sixteen units a byte, at the
//! price per unit; for gas estimation, a fake EIP-1559 transaction built
//! from the message stands in for the transaction.
use vstd::prelude::*;

use std::io::Write;

use revm::database::InMemoryDB;

use crate::burn::Burner;
use crate::l1pricing::{batch_poster_address, batch_poster_bytes, L1PricingState, TX_DATA_NON_ZERO_GAS_EIP2028};
use crate::multigas::{sat_u64, u64_max};
use crate::storage::{be_value, keccak256, keccak256_spec, u256_from_be_bytes};
use crate::word::{clamp_u256, u256_saturating_mul, Address, B256, U256};

verus! {

/// Arbitrum's deposit transaction type.
pub const ARB_DEPOSIT_TX_TYPE: u8 = 100;
/// Arbitrum's unsigned transaction type.
pub const ARB_UNSIGNED_TX_TYPE: u8 = 101;
/// Arbitrum's contract transaction type.
pub const ARB_CONTRACT_TX_TYPE: u8 = 102;
/// Arbitrum's retry transaction type.
pub const ARB_RETRY_TX_TYPE: u8 = 104;
/// Arbitrum's submit-retryable transaction type.
pub const ARB_SUBMIT_RETRYABLE_TX_TYPE: u8 = 105;
/// Arbitrum's internal transaction type.
pub const ARB_INTERNAL_TX_TYPE: u8 = 106;
/// Arbitrum's legacy transaction type.
pub const ARB_LEGACY_TX_TYPE: u8 = 120;
/// The EIP-1559 transaction type.
pub const DYNAMIC_FEE_TX_TYPE: u8 = 2;

/// Units added to a gas estimate's units: sixteen non-zero bytes.
pub const ESTIMATION_PADDING_UNITS: u64 = 16 * 16;
/// Basis points added to a gas estimate's units.
pub const ESTIMATION_PADDING_BASIS_POINTS: u64 = 100;
/// Basis points in one.
pub const ONE_IN_BIPS: u64 = 10_000;
/// The `v` of the fake signature: Arbitrum One's chain id times three.
pub const RAND_V: u64 = 126483;
/// The buffer size that the brotli compressor is given.
pub const BROTLI_BUFFER_SIZE: usize = 4096;
/// The window size (log 2) that the brotli compressor is given.
pub const BROTLI_LG_WINDOW: u32 = 22;

/// Whether transactions of this type pay for their L1 data: all but
/// Arbitrum's own types.
pub open spec fn has_poster_costs(tx_type: u8) -> bool {
    !(tx_type == ARB_DEPOSIT_TX_TYPE || tx_type == ARB_UNSIGNED_TX_TYPE || tx_type == ARB_CONTRACT_TX_TYPE || tx_type
        == ARB_RETRY_TX_TYPE || tx_type == ARB_SUBMIT_RETRYABLE_TX_TYPE || tx_type == ARB_INTERNAL_TX_TYPE || tx_type
        == ARB_LEGACY_TX_TYPE)
}

/// Whether transactions of this type pay for their L1 data.
pub fn tx_type_has_poster_costs(tx_type: u8) -> (r: bool)
    ensures
        r == has_poster_costs(tx_type),
{
    !(tx_type == ARB_DEPOSIT_TX_TYPE || tx_type == ARB_UNSIGNED_TX_TYPE || tx_type == ARB_CONTRACT_TX_TYPE || tx_type
        == ARB_RETRY_TX_TYPE || tx_type == ARB_SUBMIT_RETRYABLE_TX_TYPE || tx_type == ARB_INTERNAL_TX_TYPE || tx_type
        == ARB_LEGACY_TX_TYPE)
}

/// The shortest big-endian bytes of `x` (none for zero).
pub open spec fn be_min(x: nat) -> Seq<u8>
    decreases x,
{
    if x == 0 {
        Seq::empty()
    } else {
        be_min(x / 256).push((x % 256) as u8)
    }
}

/// The RLP encoding of an unsigned integer.
pub open spec fn rlp_uint(x: nat) -> Seq<u8> {
    if x == 0 {
        seq![0x80u8]
    } else if x < 0x80 {
        seq![x as u8]
    } else {
        seq![(0x80 + be_min(x).len()) as u8] + be_min(x)
    }
}

/// The RLP header of a string (`list` false) or a list of `len` bytes.
pub open spec fn rlp_header(list: bool, len: nat) -> Seq<u8> {
    if len < 56 {
        seq![((if list { 0xc0int } else { 0x80int }) + len) as u8]
    } else {
        seq![((if list { 0xf7int } else { 0xb7int }) + be_min(len).len()) as u8] + be_min(len)
    }
}

/// The RLP encoding of a byte string.
pub open spec fn rlp_bytes(b: Seq<u8>) -> Seq<u8> {
    if b.len() == 1 && b[0] < 0x80 {
        b
    } else {
        rlp_header(false, b.len()) + b
    }
}

/// Appends the RLP encoding of `x` with `alloy_rlp`'s `Encodable` for
/// `u64`: `0x80` for zero, the byte itself below `0x80`, otherwise
/// `0x80 + n` and the `n` bytes of `x` without leading zeros.
#[verifier::external_body]
fn rlp_put_u64(x: u64, out: &mut Vec<u8>)
    ensures
        final(out)@ == old(out)@ + rlp_uint(x as nat),
{
    alloy_rlp::Encodable::encode(&x, out)
}

/// Appends the RLP encoding of `x` with `alloy_rlp`'s `Encodable` for
/// `ruint`'s `Uint` (through `alloy_primitives::U256`), which encodes as the
/// unsigned integers do.
#[verifier::external_body]
fn rlp_put_u256(x: U256, out: &mut Vec<u8>)
    ensures
        final(out)@ == old(out)@ + rlp_uint(x.value() as nat),
{
    let v = alloy_primitives::U256::from_limbs([x.l0, x.l1, x.l2, x.l3]);
    alloy_rlp::Encodable::encode(&v, out)
}

/// Appends the RLP encoding of the byte string `b` with `alloy_rlp`'s
/// `Encodable` for `[u8]`: a single byte below `0x80` as itself, otherwise
/// a string header and the bytes.
#[verifier::external_body]
fn rlp_put_bytes(b: &[u8], out: &mut Vec<u8>)
    ensures
        final(out)@ == old(out)@ + rlp_bytes(b@),
{
    alloy_rlp::Encodable::encode(b, out)
}

/// Appends an RLP header with `alloy_rlp::Header::encode`: below 56 bytes
/// of payload one byte (`0xc0` or `0x80` plus the length), otherwise
/// `0xf7` or `0xb7` plus the length's byte count, then the length's bytes.
#[verifier::external_body]
fn rlp_put_header(list: bool, payload_length: usize, out: &mut Vec<u8>)
    ensures
        final(out)@ == old(out)@ + rlp_header(list, payload_length as nat),
{
    alloy_rlp::Header { list, payload_length }.encode(out)
}

/// The number of bytes that brotli compresses `input` to, with this buffer
/// size, quality and window size.
pub uninterp spec fn brotli_compressed_size(input: Seq<u8>, buffer_size: usize, quality: u32, lgwin: u32) -> u64;

/// Compresses `input` with `brotli::CompressorWriter` into a vector and
/// gives the compressed length. Writing into a vector does not fail; the
/// contract names the length and says nothing more of it.
#[verifier::external_body]
fn brotli_compressed_len(input: &[u8], buffer_size: usize, quality: u32, lgwin: u32) -> (r: u64)
    ensures
        r == brotli_compressed_size(input@, buffer_size, quality, lgwin),
{
    let mut compressed: Vec<u8> = Vec::new();
    {
        let mut writer = brotli::CompressorWriter::new(&mut compressed, buffer_size, quality, lgwin);
        writer.write_all(input).expect("brotli compression failed");
    }
    compressed.len() as u64
}

/// The brotli quality for a compression level: the level, at most 11.
pub open spec fn brotli_quality(level: u64) -> u32 {
    if level < 11 {
        level as u32
    } else {
        11
    }
}

/// The number of bytes that `input` compresses to at brotli level `level`
/// (levels above 11 compress as 11).
pub fn byte_count_after_brotli_level(input: &[u8], level: u64) -> (r: u64)
    ensures
        r == brotli_compressed_size(input@, BROTLI_BUFFER_SIZE, brotli_quality(level), BROTLI_LG_WINDOW),
{
    let quality: u32 = if level < 11 {
        level as u32
    } else {
        11
    };
    brotli_compressed_len(input, BROTLI_BUFFER_SIZE, quality, BROTLI_LG_WINDOW)
}

/// The calldata units of `tx_bytes` at brotli level `level`: sixteen a
/// compressed byte, stopping at `u64::MAX`.
pub open spec fn l1_units(tx_bytes: Seq<u8>, level: u64) -> u64 {
    sat_u64(
        TX_DATA_NON_ZERO_GAS_EIP2028 * brotli_compressed_size(tx_bytes, BROTLI_BUFFER_SIZE, brotli_quality(level), BROTLI_LG_WINDOW),
    )
}

/// Law: the bytes are compressed at brotli quality equal to the level, up
/// to the highest quality 11; every level from 11 up compresses as 11. So
/// the compressed size and the calldata units at a level below 11 are
/// brotli's at that very quality, and distinct levels up to 11 use
/// distinct qualities.
pub proof fn law_brotli_level_is_quality(input: Seq<u8>, level: u64, other: u64)
    ensures
        level <= 11 ==> brotli_quality(level) as int == level as int,
        level >= 11 ==> brotli_quality(level) == 11,
        level <= 11 ==> brotli_compressed_size(input, BROTLI_BUFFER_SIZE, brotli_quality(level), BROTLI_LG_WINDOW)
            == brotli_compressed_size(input, BROTLI_BUFFER_SIZE, level as u32, BROTLI_LG_WINDOW),
        level <= 11 ==> l1_units(input, level) == sat_u64(
            TX_DATA_NON_ZERO_GAS_EIP2028 * brotli_compressed_size(input, BROTLI_BUFFER_SIZE, level as u32, BROTLI_LG_WINDOW),
        ),
        level >= 11 && other >= 11 ==> l1_units(input, level) == l1_units(input, other),
        level <= 11 && other <= 11 && level != other ==> brotli_quality(level) != brotli_quality(other),
{
}

/// The calldata units of a transaction's bytes at brotli level `level`.
pub fn l1_units_of(tx_bytes: &[u8], level: u64) -> (r: u64)
    ensures
        r == l1_units(tx_bytes@, level),
{
    let l1_bytes = byte_count_after_brotli_level(tx_bytes, level);
    match TX_DATA_NON_ZERO_GAS_EIP2028.checked_mul(l1_bytes) {
        Some(units) => units,
        None => u64::MAX,
    }
}

/// The RLP encodings of storage keys, one after the other.
pub open spec fn rlp_keys(keys: Seq<Seq<u8>>) -> Seq<u8>
    decreases keys.len(),
{
    if keys.len() == 0 {
        Seq::empty()
    } else {
        rlp_keys(keys.drop_last()) + rlp_bytes(keys.last())
    }
}

/// The RLP encoding of one access list entry: the list of the address and
/// the list of its storage keys.
pub open spec fn rlp_access_entry(addr: Seq<u8>, keys: Seq<Seq<u8>>) -> Seq<u8> {
    let entry = rlp_bytes(addr) + rlp_header(true, rlp_keys(keys).len()) + rlp_keys(keys);
    rlp_header(true, entry.len()) + entry
}

/// The RLP encodings of access list entries, one after the other.
pub open spec fn rlp_access_entries(entries: Seq<(Seq<u8>, Seq<Seq<u8>>)>) -> Seq<u8>
    decreases entries.len(),
{
    if entries.len() == 0 {
        Seq::empty()
    } else {
        rlp_access_entries(entries.drop_last()) + rlp_access_entry(entries.last().0, entries.last().1)
    }
}

/// The RLP encoding of an access list.
pub open spec fn rlp_access_list(entries: Seq<(Seq<u8>, Seq<Seq<u8>>)>) -> Seq<u8> {
    rlp_header(true, rlp_access_entries(entries).len()) + rlp_access_entries(entries)
}

/// The bytes of storage keys.
pub open spec fn keys_view(keys: Seq<B256>) -> Seq<Seq<u8>> {
    Seq::new(keys.len(), |j: int| keys[j].bytes@)
}

/// The bytes of an access list: each address with its storage keys.
pub open spec fn access_list_view(list: Seq<(Address, Vec<B256>)>) -> Seq<(Seq<u8>, Seq<Seq<u8>>)> {
    Seq::new(list.len(), |i: int| (list[i].0.bytes@, keys_view(list[i].1@)))
}

/// Appends the RLP encoding of an access list (a list of
/// `[address, [storage keys...]]` entries).
fn encode_access_list(list: &[(Address, Vec<B256>)], out: &mut Vec<u8>)
    ensures
        final(out)@ == old(out)@ + rlp_access_list(access_list_view(list@)),
{
    let mut list_payload: Vec<u8> = Vec::new();
    let mut i: usize = 0;
    while i < list.len()
        invariant
            i <= list@.len(),
            list_payload@ == rlp_access_entries(access_list_view(list@).take(i as int)),
        decreases list@.len() - i,
    {
        let addr = list[i].0;
        let keys = &list[i].1;
        let mut entry_payload: Vec<u8> = Vec::new();
        rlp_put_bytes(&addr.bytes, &mut entry_payload);
        let mut keys_payload: Vec<u8> = Vec::new();
        let mut j: usize = 0;
        while j < keys.len()
            invariant
                j <= keys@.len(),
                keys_payload@ == rlp_keys(keys_view(keys@).take(j as int)),
            decreases keys@.len() - j,
        {
            rlp_put_bytes(&keys[j].bytes, &mut keys_payload);
            proof {
                assert(keys_view(keys@).take(j + 1).drop_last() =~= keys_view(keys@).take(j as int));
            }
            j += 1;
        }
        proof {
            assert(keys_view(keys@).take(keys@.len() as int) =~= keys_view(keys@));
        }
        rlp_put_header(true, keys_payload.len(), &mut entry_payload);
        entry_payload.extend_from_slice(keys_payload.as_slice());
        rlp_put_header(true, entry_payload.len(), &mut list_payload);
        list_payload.extend_from_slice(entry_payload.as_slice());
        proof {
            let es = access_list_view(list@);
            assert(es.take(i + 1).drop_last() =~= es.take(i as int));
            assert(es[i as int] == (addr.bytes@, keys_view(keys@)));
        }
        i += 1;
    }
    proof {
        assert(access_list_view(list@).take(list@.len() as int) =~= access_list_view(list@));
    }
    rlp_put_header(true, list_payload.len(), out);
    out.extend_from_slice(list_payload.as_slice());
}

/// The bytes of the word "R" hashed: the fake signature's `r`.
pub open spec fn rand_r() -> int {
    be_value(keccak256_spec(seq![0x52u8]))
}

/// The bytes of the word "S" hashed: the fake signature's `s`.
pub open spec fn rand_s() -> int {
    be_value(keccak256_spec(seq![0x53u8]))
}

/// The EIP-2718 bytes of a fake EIP-1559 transaction: type 2, then the RLP
/// list of chain id 0, the nonce, tip and fee caps, gas, recipient (empty
/// for a creation), value, data, access list and the fake signature.
pub open spec fn fake_eip1559_spec(
    nonce: nat,
    gas_tip_cap: nat,
    gas_fee_cap: nat,
    gas: nat,
    to: Option<Seq<u8>>,
    value: nat,
    data: Seq<u8>,
    access_list: Seq<(Seq<u8>, Seq<Seq<u8>>)>,
) -> Seq<u8> {
    let payload = rlp_uint(0) + rlp_uint(nonce) + rlp_uint(gas_tip_cap) + rlp_uint(gas_fee_cap) + rlp_uint(gas)
        + match to {
        None => rlp_bytes(Seq::empty()),
        Some(a) => rlp_bytes(a),
    } + rlp_uint(value) + rlp_bytes(data) + rlp_access_list(access_list) + rlp_uint(RAND_V as nat) + rlp_uint(
        rand_r() as nat,
    ) + rlp_uint(rand_s() as nat);
    seq![DYNAMIC_FEE_TX_TYPE] + rlp_header(true, payload.len()) + payload
}

/// The hash of one byte, as a word.
fn hash_of_byte(b: u8) -> (r: U256)
    ensures
        r.value() == be_value(keccak256_spec(seq![b])),
{
    let input: [u8; 1] = [b];
    assert(input@ =~= seq![b]);
    u256_from_be_bytes(keccak256(&input))
}

/// Builds the EIP-2718 bytes of a fake EIP-1559 transaction (chain id 0,
/// an invalid signature); they only serve to estimate a size.
fn fake_eip1559_bytes(
    nonce: u64,
    gas_tip_cap: U256,
    gas_fee_cap: U256,
    gas: u64,
    to: Option<Address>,
    value: U256,
    data: &[u8],
    access_list: &[(Address, Vec<B256>)],
) -> (r: Vec<u8>)
    ensures
        r@ == fake_eip1559_spec(
            nonce as nat,
            gas_tip_cap.value() as nat,
            gas_fee_cap.value() as nat,
            gas as nat,
            match to {
                None => None,
                Some(a) => Some(a.bytes@),
            },
            value.value() as nat,
            data@,
            access_list_view(access_list@),
        ),
{
    let mut payload: Vec<u8> = Vec::new();
    rlp_put_u64(0, &mut payload);
    rlp_put_u64(nonce, &mut payload);
    rlp_put_u256(gas_tip_cap, &mut payload);
    rlp_put_u256(gas_fee_cap, &mut payload);
    rlp_put_u64(gas, &mut payload);
    let ghost before_to = payload@;
    match to {
        None => {
            let empty: [u8; 0] = [];
            assert(empty@ =~= Seq::<u8>::empty());
            rlp_put_bytes(&empty, &mut payload);
        },
        Some(addr) => {
            rlp_put_bytes(&addr.bytes, &mut payload);
        },
    }
    rlp_put_u256(value, &mut payload);
    rlp_put_bytes(data, &mut payload);
    encode_access_list(access_list, &mut payload);
    rlp_put_u64(RAND_V, &mut payload);
    let r_sig = hash_of_byte(0x52);
    let s_sig = hash_of_byte(0x53);
    rlp_put_u256(r_sig, &mut payload);
    rlp_put_u256(s_sig, &mut payload);
    let mut out: Vec<u8> = Vec::new();
    out.push(DYNAMIC_FEE_TX_TYPE);
    rlp_put_header(true, payload.len(), &mut out);
    out.extend_from_slice(payload.as_slice());
    proof {
        let to_view = match to {
            None => None,
            Some(a) => Some(a.bytes@),
        };
        assert(out@ =~= fake_eip1559_spec(
            nonce as nat,
            gas_tip_cap.value() as nat,
            gas_fee_cap.value() as nat,
            gas as nat,
            to_view,
            value.value() as nat,
            data@,
            access_list_view(access_list@),
        ));
    }
    out
}

/// 256 to the power `n`.
pub open spec fn pow256(n: nat) -> nat
    decreases n,
{
    if n == 0 {
        1
    } else {
        256 * pow256((n - 1) as nat)
    }
}

/// Powers of 256 grow with the exponent.
pub proof fn lemma_pow256_mono(a: nat, b: nat)
    requires
        a <= b,
    ensures
        pow256(a) <= pow256(b),
    decreases b,
{
    if a < b {
        lemma_pow256_mono(a, (b - 1) as nat);
    }
}

/// The first `n` (at most 8) bytes of `h` as a big-endian number.
fn be_prefix(h: &[u8; 32], n: usize) -> (r: u64)
    requires
        n <= 8,
    ensures
        r == be_value(h@.take(n as int)),
{
    proof {
        reveal_with_fuel(pow256, 9);
        lemma_pow256_mono(n as nat, 8);
    }
    let mut v: u64 = 0;
    let mut i: usize = 0;
    while i < n
        invariant
            n <= 8,
            i <= n,
            v == be_value(h@.take(i as int)),
            v < pow256(i as nat),
            pow256(n as nat) <= pow256(8),
            pow256(8) == 0x1_0000_0000_0000_0000,
        decreases n - i,
    {
        proof {
            lemma_pow256_mono((i + 1) as nat, n as nat);
            assert(pow256((i + 1) as nat) == 256 * pow256(i as nat));
            let b = h@[i as int];
            assert(v * 256 + b < 256 * pow256(i as nat)) by (nonlinear_arith)
                requires
                    v < pow256(i as nat),
                    b < 256,
            ;
            assert(h@.take(i + 1).drop_last() =~= h@.take(i as int));
        }
        v = v * 256 + h[i] as u64;
        i += 1;
    }
    v
}

/// The bytes of the word "Nonce".
pub open spec fn nonce_word() -> Seq<u8> {
    seq![0x4eu8, 0x6fu8, 0x6eu8, 0x63u8, 0x65u8]
}

/// The bytes of the word "GasTipCap".
pub open spec fn gas_tip_cap_word() -> Seq<u8> {
    seq![0x47u8, 0x61u8, 0x73u8, 0x54u8, 0x69u8, 0x70u8, 0x43u8, 0x61u8, 0x70u8]
}

/// The bytes of the word "GasFeeCap".
pub open spec fn gas_fee_cap_word() -> Seq<u8> {
    seq![0x47u8, 0x61u8, 0x73u8, 0x46u8, 0x65u8, 0x65u8, 0x43u8, 0x61u8, 0x70u8]
}

/// The bytes of the word "Gas".
pub open spec fn gas_word() -> Seq<u8> {
    seq![0x47u8, 0x61u8, 0x73u8]
}

/// The nonce of a fake transaction whose message has none: the first eight
/// bytes of the hash of "Nonce".
pub open spec fn random_nonce() -> int {
    be_value(keccak256_spec(nonce_word()).take(8))
}

/// The tip cap of a fake transaction whose message has none: the first
/// four bytes of the hash of "GasTipCap".
pub open spec fn random_gas_tip_cap() -> int {
    be_value(keccak256_spec(gas_tip_cap_word()).take(4))
}

/// The fee cap of a fake transaction whose message has none: the first
/// four bytes of the hash of "GasFeeCap".
pub open spec fn random_gas_fee_cap() -> int {
    be_value(keccak256_spec(gas_fee_cap_word()).take(4))
}

/// The gas of a fake transaction whose message has none, or that is an
/// estimate: the first four bytes of the hash of "Gas".
pub open spec fn random_gas() -> int {
    be_value(keccak256_spec(gas_word()).take(4))
}

/// The number of the first `n` bytes of the hash of `word`.
fn hash_prefix(word: &[u8], n: usize) -> (r: u64)
    requires
        n <= 8,
    ensures
        r == be_value(keccak256_spec(word@).take(n as int)),
{
    let h = keccak256(word);
    be_prefix(&h, n)
}

/// A transaction that ArbOS can charge for its L1 data; callers implement
/// it for their transaction type.
pub trait PosterTransaction {
    /// The transaction's binary encoding, as a function of the transaction.
    spec fn encoded_spec(&self) -> Seq<u8>;

    /// The transaction's type, as a function of the transaction.
    spec fn tx_type_spec(&self) -> u8;

    /// The transaction's binary encoding.
    fn encode(&self) -> (r: Vec<u8>)
        ensures
            r@ == self.encoded_spec(),
    ;

    /// The transaction's EIP-2718 type.
    fn tx_type(&self) -> (r: u8)
        ensures
            r == self.tx_type_spec(),
    ;

    /// The calldata units cached for a compression level, as a function of
    /// the transaction.
    spec fn cached_units_spec(&self, brotli_compression_level: u64) -> Option<u64>;

    /// The calldata units cached for this compression level, if any.
    fn get_cached_calldata_units(&self, brotli_compression_level: u64) -> (r: Option<u64>)
        ensures
            r == self.cached_units_spec(brotli_compression_level),
    ;

    /// Whether the transaction keeps a cache of calldata units (a fake
    /// transaction made for one estimate keeps none).
    spec fn caches_units_spec(&self) -> bool;

    /// Caches the calldata units for this compression level: a transaction
    /// that keeps a cache then holds `units` for the level. The
    /// transaction's encoding and type stay as they were.
    fn set_cached_calldata_units(&mut self, brotli_compression_level: u64, units: u64)
        ensures
            final(self).encoded_spec() == old(self).encoded_spec(),
            final(self).tx_type_spec() == old(self).tx_type_spec(),
            final(self).caches_units_spec() == old(self).caches_units_spec(),
            old(self).caches_units_spec() ==> final(self).cached_units_spec(brotli_compression_level) == Some(units),
    ;
}

/// A fake EIP-1559 transaction, only good for estimating a size.
pub struct FakeTx {
    encoded: Vec<u8>,
}

impl FakeTx {
    /// The transaction's bytes.
    pub closed spec fn encoded_view(&self) -> Seq<u8> {
        self.encoded@
    }
}

impl PosterTransaction for FakeTx {
    open spec fn encoded_spec(&self) -> Seq<u8> {
        self.encoded_view()
    }

    open spec fn tx_type_spec(&self) -> u8 {
        DYNAMIC_FEE_TX_TYPE
    }

    open spec fn cached_units_spec(&self, brotli_compression_level: u64) -> Option<u64> {
        None
    }

    open spec fn caches_units_spec(&self) -> bool {
        false
    }

    fn encode(&self) -> (r: Vec<u8>) {
        self.encoded.clone()
    }

    fn tx_type(&self) -> (r: u8) {
        DYNAMIC_FEE_TX_TYPE
    }

    fn get_cached_calldata_units(&self, brotli_compression_level: u64) -> (r: Option<u64>)
        ensures
            r is None,
    {
        None
    }

    fn set_cached_calldata_units(&mut self, brotli_compression_level: u64, units: u64)
        ensures
            *final(self) == *old(self),
    {
    }
}

/// The calldata units of `tx` posted by the batch poster: those cached for
/// the compression level, or else none for Arbitrum's own transaction types
/// and sixteen a byte of the compressed encoding for the others.
pub open spec fn batch_poster_units<T: PosterTransaction>(tx: T, brotli_compression_level: u64) -> u64 {
    match tx.cached_units_spec(brotli_compression_level) {
        Some(cached) => cached,
        None => if has_poster_costs(tx.tx_type_spec()) {
            l1_units(tx.encoded_spec(), brotli_compression_level)
        } else {
            0
        },
    }
}

/// The fields of a message that the L1 cost of its transaction needs.
pub struct Message<T: PosterTransaction> {
    pub nonce: u64,
    pub gas_tip_cap: U256,
    pub gas_fee_cap: U256,
    pub gas_limit: u64,
    pub is_gas_estimation: bool,
    pub to: Option<Address>,
    pub value: U256,
    pub data: Vec<u8>,
    pub access_list: Vec<(Address, Vec<B256>)>,
    pub tx: Option<T>,
}

/// The bytes of the fake transaction for a message: its fields, with a
/// random nonce, tip cap and fee cap where they are zero, and a random gas
/// where the gas limit is zero or the message is a gas estimate.
pub open spec fn fake_tx_bytes<T: PosterTransaction>(message: Message<T>) -> Seq<u8> {
    fake_eip1559_spec(
        (if message.nonce == 0 {
            random_nonce()
        } else {
            message.nonce as int
        }) as nat,
        (if message.gas_tip_cap.value() == 0 {
            random_gas_tip_cap()
        } else {
            message.gas_tip_cap.value()
        }) as nat,
        (if message.gas_fee_cap.value() == 0 {
            random_gas_fee_cap()
        } else {
            message.gas_fee_cap.value()
        }) as nat,
        (if message.gas_limit == 0 || message.is_gas_estimation {
            random_gas()
        } else {
            message.gas_limit as int
        }) as nat,
        match message.to {
            None => None,
            Some(a) => Some(a.bytes@),
        },
        message.value.value() as nat,
        message.data@,
        access_list_view(message.access_list@),
    )
}

/// The fake transaction for a message, for estimating the size of its L1
/// data during gas estimation; it is deliberately invalid.
pub fn make_fake_tx_for_message<T: PosterTransaction>(message: &Message<T>) -> (r: FakeTx)
    ensures
        r.encoded_view() == fake_tx_bytes(*message),
{
    let nonce_bytes: [u8; 5] = [0x4e, 0x6f, 0x6e, 0x63, 0x65];
    let tip_bytes: [u8; 9] = [0x47, 0x61, 0x73, 0x54, 0x69, 0x70, 0x43, 0x61, 0x70];
    let fee_bytes: [u8; 9] = [0x47, 0x61, 0x73, 0x46, 0x65, 0x65, 0x43, 0x61, 0x70];
    let gas_bytes: [u8; 3] = [0x47, 0x61, 0x73];
    assert(nonce_bytes@ =~= nonce_word());
    assert(tip_bytes@ =~= gas_tip_cap_word());
    assert(fee_bytes@ =~= gas_fee_cap_word());
    assert(gas_bytes@ =~= gas_word());
    let nonce = if message.nonce == 0 {
        hash_prefix(&nonce_bytes, 8)
    } else {
        message.nonce
    };
    let gas_tip_cap = if message.gas_tip_cap.is_zero() {
        U256::from_u64(hash_prefix(&tip_bytes, 4))
    } else {
        message.gas_tip_cap
    };
    let gas_fee_cap = if message.gas_fee_cap.is_zero() {
        U256::from_u64(hash_prefix(&fee_bytes, 4))
    } else {
        message.gas_fee_cap
    };
    let gas = if message.gas_limit == 0 || message.is_gas_estimation {
        hash_prefix(&gas_bytes, 4)
    } else {
        message.gas_limit
    };
    FakeTx {
        encoded: fake_eip1559_bytes(
            nonce,
            gas_tip_cap,
            gas_fee_cap,
            gas,
            message.to,
            message.value,
            message.data.as_slice(),
            message.access_list.as_slice(),
        ),
    }
}

/// The calldata units of a gas estimate: the units plus sixteen bytes'
/// worth, plus one percent, each step stopping at `u64::MAX`.
pub open spec fn padded_units(units: int) -> int {
    sat_u64(sat_u64(units + ESTIMATION_PADDING_UNITS) * (ONE_IN_BIPS + ESTIMATION_PADDING_BASIS_POINTS)) as int
        / ONE_IN_BIPS as int
}

impl<B: Burner> L1PricingState<B> {
    /// The calldata units of `tx` posted by `poster_addr`, not using the
    /// cache: none for any poster but the batch poster or for Arbitrum's
    /// own transaction types, otherwise sixteen a byte of the transaction's
    /// encoding compressed at `brotli_compression_level`.
    pub fn get_poster_units_without_cache<T: PosterTransaction>(
        &self,
        tx: &T,
        poster_addr: Address,
        brotli_compression_level: u64,
    ) -> (r: u64)
        ensures
            r == if poster_addr.bytes@ != batch_poster_bytes() || !has_poster_costs(tx.tx_type_spec()) {
                0
            } else {
                l1_units(tx.encoded_spec(), brotli_compression_level)
            },
    {
        if !poster_addr.equals(&batch_poster_address()) {
            return 0;
        }
        let tx_type = tx.tx_type();
        if !tx_type_has_poster_costs(tx_type) {
            return 0;
        }
        let tx_bytes = tx.encode();
        l1_units_of(tx_bytes.as_slice(), brotli_compression_level)
    }

    /// The L1 cost of `tx` posted by `poster` and its calldata units: none
    /// for any poster but the batch poster; otherwise the cached units for
    /// the compression level, or the units computed (and then cached), at
    /// the price per unit.
    pub fn get_poster_info<T: PosterTransaction>(
        &self,
        db: &InMemoryDB,
        tx: &mut T,
        poster: Address,
        brotli_compression_level: u64,
    ) -> (r: (U256, u64))
        requires
            self.inv(),
        ensures
            poster.bytes@ != batch_poster_bytes() ==> r.0.value() == 0 && r.1 == 0 && *final(tx) == *old(tx),
            poster.bytes@ == batch_poster_bytes() ==> r.1 == batch_poster_units(*old(tx), brotli_compression_level),
            poster.bytes@ == batch_poster_bytes() && old(tx).cached_units_spec(brotli_compression_level) is Some
                ==> *final(tx) == *old(tx),
            poster.bytes@ == batch_poster_bytes() && old(tx).cached_units_spec(brotli_compression_level) is None
                && old(tx).caches_units_spec() ==> final(tx).cached_units_spec(brotli_compression_level) == Some(r.1),
            poster.bytes@ == batch_poster_bytes() ==> r.0.value() == clamp_u256(self.field(*db, 7) * r.1),
            final(tx).encoded_spec() == old(tx).encoded_spec(),
            final(tx).tx_type_spec() == old(tx).tx_type_spec(),
    {
        if !poster.equals(&batch_poster_address()) {
            return (U256::zero(), 0);
        }
        let units = match tx.get_cached_calldata_units(brotli_compression_level) {
            Some(cached) => cached,
            None => {
                let computed = self.get_poster_units_without_cache(tx, poster, brotli_compression_level);
                tx.set_cached_calldata_units(brotli_compression_level, computed);
                computed
            },
        };
        let price_per_unit = self.price_per_unit(db);
        (u256_saturating_mul(price_per_unit, U256::from_u64(units)), units)
    }

    /// The L1 cost of a message's transaction posted by `poster` and its
    /// calldata units: where the message carries its transaction, that
    /// transaction's (`get_poster_info`); during gas estimation, those of
    /// the fake transaction for the message, padded, at the price per unit.
    pub fn poster_data_cost<T: PosterTransaction>(
        &self,
        db: &InMemoryDB,
        message: &mut Message<T>,
        poster: Address,
        brotli_compression_level: u64,
    ) -> (r: (U256, u64))
        requires
            self.inv(),
        ensures
            old(message).tx is None ==> *final(message) == *old(message),
            old(message).tx is None ==> r.1 == padded_units(
                if poster.bytes@ == batch_poster_bytes() {
                    l1_units(fake_tx_bytes(*old(message)), brotli_compression_level) as int
                } else {
                    0
                },
            ),
            old(message).tx is Some && poster.bytes@ != batch_poster_bytes() ==> r.0.value() == 0 && r.1 == 0,
            old(message).tx is Some && poster.bytes@ == batch_poster_bytes() ==> r.1 == batch_poster_units(
                old(message).tx.unwrap(),
                brotli_compression_level,
            ),
            old(message).tx is Some ==> final(message).tx is Some,
            old(message).tx is Some && poster.bytes@ == batch_poster_bytes() && old(message).tx.unwrap().cached_units_spec(
                brotli_compression_level,
            ) is None && old(message).tx.unwrap().caches_units_spec() ==> final(message).tx.unwrap().cached_units_spec(
                brotli_compression_level,
            ) == Some(r.1),
            r.0.value() == clamp_u256(self.field(*db, 7) * r.1) || (poster.bytes@ != batch_poster_bytes() && r.0.value()
                == 0 && r.1 == 0),
    {
        match message.tx.take() {
            Some(mut tx) => {
                let r = self.get_poster_info(db, &mut tx, poster, brotli_compression_level);
                message.tx = Some(tx);
                return r;
            },
            None => {},
        }
        let fake = make_fake_tx_for_message(message);
        let units = self.get_poster_units_without_cache(&fake, poster, brotli_compression_level);
        let padded = match units.checked_add(ESTIMATION_PADDING_UNITS) {
            Some(u) => u,
            None => u64::MAX,
        };
        let scaled = match padded.checked_mul(ONE_IN_BIPS + ESTIMATION_PADDING_BASIS_POINTS) {
            Some(u) => u,
            None => u64::MAX,
        };
        let units = scaled / ONE_IN_BIPS;
        let price_per_unit = self.price_per_unit(db);
        (u256_saturating_mul(price_per_unit, U256::from_u64(units)), units)
    }
}

} // verus!
