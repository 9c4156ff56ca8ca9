use arb_arbos::arbsys::{
    apply_l1_to_l2_alias, arbsys_address, block_hash_output, run, selectors, undo_l1_to_l2_alias, ArbSysEnv,
    ArbSysError, ArbSysStep,
};
use arb_arbos::word::{Address, B256, U256};

fn hex_addr(s: &str) -> Address {
    let mut bytes = [0u8; 20];
    for k in 0..20 {
        bytes[k] = u8::from_str_radix(&s[2 * k..2 * k + 2], 16).unwrap();
    }
    Address { bytes }
}

fn sel(sig: &str) -> [u8; 4] {
    let h = alloy_primitives::keccak256(sig.as_bytes());
    [h[0], h[1], h[2], h[3]]
}

fn env() -> ArbSysEnv {
    ArbSysEnv { block_number: U256::from_u64(1000), chain_id: 42161, depth: 1 }
}

fn word(x: u64) -> Vec<u8> {
    let mut w = vec![0u8; 32];
    w[24..].copy_from_slice(&x.to_be_bytes());
    w
}

fn call(input: &[u8], gas_limit: u64) -> ArbSysStep {
    run(&env(), input, gas_limit)
}

fn output(step: ArbSysStep) -> (u64, Vec<u8>) {
    match step {
        ArbSysStep::Done(Ok(o)) => (o.gas_used, o.bytes),
        _ => panic!("expected an output"),
    }
}

fn failure(step: ArbSysStep) -> ArbSysError {
    match step {
        ArbSysStep::Done(Err(e)) => e,
        _ => panic!("expected an error"),
    }
}

#[test]
fn alias_adds_the_offset() {
    let a = hex_addr("0000000000000000000000000000000000000000");
    assert!(apply_l1_to_l2_alias(a).equals(&hex_addr("1111000000000000000000000000000000001111")));
    let b = hex_addr("ffffffffffffffffffffffffffffffffffffffff");
    assert!(apply_l1_to_l2_alias(b).equals(&hex_addr("1111000000000000000000000000000000001110")));
    let c = hex_addr("00000000000000000000000000000000000000ff");
    assert!(apply_l1_to_l2_alias(c).equals(&hex_addr("1111000000000000000000000000000000001210")));
}

#[test]
fn undo_alias_subtracts_the_offset() {
    let a = hex_addr("1111000000000000000000000000000000001111");
    assert!(undo_l1_to_l2_alias(a).equals(&hex_addr("0000000000000000000000000000000000000000")));
    let z = hex_addr("0000000000000000000000000000000000000000");
    assert!(undo_l1_to_l2_alias(z).equals(&hex_addr("eeeeffffffffffffffffffffffffffffffffeeef")));
}

#[test]
fn alias_roundtrip() {
    for s in [
        "0000000000000000000000000000000000000000",
        "ffffffffffffffffffffffffffffffffffffffff",
        "a4b000000000000000000073657175656e636572",
        "eeeeffffffffffffffffffffffffffffffffeeef",
        "1234567890abcdef1234567890abcdef12345678",
    ] {
        let a = hex_addr(s);
        assert!(undo_l1_to_l2_alias(apply_l1_to_l2_alias(a)).equals(&a));
        assert!(apply_l1_to_l2_alias(undo_l1_to_l2_alias(a)).equals(&a));
    }
}

#[test]
fn precompile_address() {
    let a = arbsys_address();
    assert!(a.equals(&hex_addr("0000000000000000000000000000000000000064")));
}

#[test]
fn selectors_are_the_signature_hashes() {
    let s = selectors();
    assert_eq!(s.arb_block_number, [0xa3, 0xb1, 0xb3, 0x1d]);
    assert_eq!(s.arb_chain_id, [0xd1, 0x27, 0xf5, 0x4a]);
    assert_eq!(s.arb_block_number, sel("arbBlockNumber()"));
    assert_eq!(s.arb_block_hash, sel("arbBlockHash(uint256)"));
    assert_eq!(s.arb_chain_id, sel("arbChainID()"));
    assert_eq!(s.arb_os_version, sel("arbOSVersion()"));
    assert_eq!(s.get_storage_gas_available, sel("getStorageGasAvailable()"));
    assert_eq!(s.is_top_level_call, sel("isTopLevelCall()"));
    assert_eq!(s.map_l1_sender_to_l2_alias, sel("mapL1SenderContractAddressToL2Alias(address,address)"));
    assert_eq!(s.was_my_callers_aliased, sel("wasMyCallersAddressAliased()"));
    assert_eq!(s.my_callers_without_aliasing, sel("myCallersAddressWithoutAliasing()"));
    assert_eq!(s.send_tx_to_l1, sel("sendTxToL1(address,bytes)"));
    assert_eq!(s.send_merkle_tree_state, sel("sendMerkleTreeState()"));
    assert_eq!(s.withdraw_eth, sel("withdrawEth(address)"));
}

#[test]
fn short_and_unknown_calls_fail() {
    assert_eq!(failure(call(&[1, 2, 3], 100)), ArbSysError::CalldataTooShort);
    assert_eq!(failure(call(&[0, 0, 0, 0], 100)), ArbSysError::UnknownSelector);
    assert_eq!(ArbSysError::CalldataTooShort.message(), Some("calldata too short"));
    assert_eq!(ArbSysError::OutOfGas.message(), None);
}

#[test]
fn block_number_chain_id_and_version() {
    assert_eq!(output(call(&sel("arbBlockNumber()"), 0)), (0, word(1000)));
    assert_eq!(output(call(&sel("arbChainID()"), 0)), (0, word(42161)));
    assert_eq!(output(call(&sel("arbOSVersion()"), 0)), (0, word(0)));
    assert_eq!(output(call(&sel("getStorageGasAvailable()"), 0)), (0, word(0)));
}

#[test]
fn top_level_call_depends_on_depth() {
    assert_eq!(output(call(&sel("isTopLevelCall()"), 0)), (0, word(1)));
    let deep = ArbSysEnv { block_number: U256::from_u64(1), chain_id: 1, depth: 3 };
    assert_eq!(output(run(&deep, &sel("isTopLevelCall()"), 0)), (0, word(0)));
}

#[test]
fn map_sender_to_alias() {
    let mut input = sel("mapL1SenderContractAddressToL2Alias(address,address)").to_vec();
    input.extend_from_slice(&word(0xff));
    input.extend_from_slice(&word(0));
    let (gas, out) = output(call(&input, 0));
    assert_eq!(gas, 0);
    let mut expected = vec![0u8; 12];
    expected.extend_from_slice(&hex_addr("1111000000000000000000000000000000001210").bytes);
    assert_eq!(out, expected);
    let short = sel("mapL1SenderContractAddressToL2Alias(address,address)").to_vec();
    assert_eq!(failure(call(&short, 0)), ArbSysError::InvalidInputLength);
}

#[test]
fn block_hash_window() {
    let mut input = sel("arbBlockHash(uint256)").to_vec();
    input.extend_from_slice(&word(990));
    match call(&input, 20) {
        ArbSysStep::BlockHash(n) => assert_eq!(n, 990),
        _ => panic!("expected a lookup"),
    }
    assert_eq!(failure(call(&input, 19)), ArbSysError::OutOfGas);
    let mut too_old = sel("arbBlockHash(uint256)").to_vec();
    too_old.extend_from_slice(&word(700));
    assert_eq!(failure(call(&too_old, 20)), ArbSysError::InvalidBlockNumber);
    let mut current = sel("arbBlockHash(uint256)").to_vec();
    current.extend_from_slice(&word(1000));
    assert_eq!(failure(call(&current, 20)), ArbSysError::InvalidBlockNumber);
    let mut oldest = sel("arbBlockHash(uint256)").to_vec();
    oldest.extend_from_slice(&word(744));
    assert!(matches!(call(&oldest, 20), ArbSysStep::BlockHash(744)));
    let short = sel("arbBlockHash(uint256)").to_vec();
    assert_eq!(failure(call(&short, 20)), ArbSysError::InvalidInputLength);
}

#[test]
fn block_hash_beyond_u64() {
    let big = ArbSysEnv { block_number: U256 { l0: 5, l1: 1, l2: 0, l3: 0 }, chain_id: 1, depth: 1 };
    let mut input = sel("arbBlockHash(uint256)").to_vec();
    let mut w = vec![0u8; 32];
    w[23] = 1;
    w[31] = 4;
    input.extend_from_slice(&w);
    assert_eq!(failure(run(&big, &input, 20)), ArbSysError::BlockNumberOutOfRange);
}

#[test]
fn block_hash_answer() {
    let h = B256 { bytes: [7u8; 32] };
    let o = block_hash_output(Some(h));
    assert_eq!(o.gas_used, 20);
    assert_eq!(o.bytes, vec![7u8; 32]);
    assert_eq!(block_hash_output(None).bytes, vec![0u8; 32]);
}

#[test]
fn calls_that_need_arbos_state_fail() {
    assert_eq!(failure(call(&sel("wasMyCallersAddressAliased()"), 0)), ArbSysError::WasMyCallersAliasedUnsupported);
    assert_eq!(
        failure(call(&sel("myCallersAddressWithoutAliasing()"), 0)),
        ArbSysError::MyCallersWithoutAliasingUnsupported
    );
    assert_eq!(failure(call(&sel("sendTxToL1(address,bytes)"), 0)), ArbSysError::SendTxToL1Unsupported);
    assert_eq!(failure(call(&sel("sendMerkleTreeState()"), 0)), ArbSysError::SendMerkleTreeStateUnsupported);
    let mut w = sel("withdrawEth(address)").to_vec();
    assert_eq!(failure(call(&w, 0)), ArbSysError::InvalidInputLength);
    w.extend_from_slice(&word(5));
    assert_eq!(failure(call(&w, 0)), ArbSysError::SendTxToL1Unsupported);
}
