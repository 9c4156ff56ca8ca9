use std::collections::HashMap;

use arb_arbos::burn::SystemBurner;
use arb_arbos::l2pricing::gas_constraint::GasConstraint;
use arb_arbos::l2pricing::multi_gas_constraint::MultiGasConstraint;
use arb_arbos::l2pricing::multi_gas_fees::MultiGasFees;
use arb_arbos::multigas::ResourceKind;
use arb_arbos::storage::Storage;
use arb_arbos::word::{Address, I256, U256};

fn space(id: u8) -> Storage<SystemBurner> {
    let mut bytes = [0xffu8; 20];
    bytes[0] = 0xa4;
    let root = Storage { account: Address { bytes }, storage_key: vec![], burner: SystemBurner::new(None, false) };
    root.open_sub_storage(&[id])
}

#[test]
fn gas_constraint_fields() {
    let mut db = revm::database::InMemoryDB::default();
    let sto = space(1);
    let mut c = GasConstraint::open(&sto);
    c.set_target(&mut db, 7_000_000);
    c.set_adjustment_window(&mut db, 600);
    c.set_backlog(&mut db, 123);
    assert_eq!(c.target(&db), 7_000_000);
    assert_eq!(c.adjustment_window(&db), 600);
    assert_eq!(c.backlog(&db), 123);
    assert_eq!(sto.get_uint64_by_uint64(&db, 0), 7_000_000);
    assert_eq!(sto.get_uint64_by_uint64(&db, 2), 123);
    c.clear(&mut db);
    assert_eq!(c.target(&db), 0);
    assert_eq!(c.adjustment_window(&db), 0);
    assert_eq!(c.backlog(&db), 0);
}

#[test]
fn multi_gas_constraint_weights() {
    let mut db = revm::database::InMemoryDB::default();
    let sto = space(2);
    let mut c = MultiGasConstraint::open(&sto);
    let mut weights = HashMap::new();
    weights.insert(1u8, 5u64);
    weights.insert(5u8, 9u64);
    weights.insert(9u8, 100u64);
    c.set_resource_weights(&mut db, &weights);
    assert_eq!(sto.get_uint64_by_uint64(&db, 3), 9);
    assert_eq!(sto.get_uint64_by_uint64(&db, 4), 0);
    assert_eq!(sto.get_uint64_by_uint64(&db, 5), 5);
    assert_eq!(sto.get_uint64_by_uint64(&db, 9), 9);
    assert_eq!(sto.get_uint64_by_uint64(&db, 11), 0);
    c.set_target(&mut db, 10);
    c.set_adjustment_window(&mut db, 20);
    c.set_backlog(&mut db, 30);
    assert_eq!(c.target(&db), 10);
    assert_eq!(c.adjustment_window(&db), 20);
    assert_eq!(c.backlog(&db), 30);
    c.clear(&mut db);
    for off in 0..12u64 {
        assert_eq!(sto.get_uint64_by_uint64(&db, off), 0);
    }
}

#[test]
fn multi_gas_fees_commit() {
    let mut db = revm::database::InMemoryDB::default();
    let sto = space(3);
    let mut fees = MultiGasFees::open(&sto);
    let minus_one = neg(1);
    fees.set_next_block_fee(ResourceKind::Computation, I256::from_u64(11), &mut db);
    fees.set_next_block_fee(ResourceKind::WasmComputation, minus_one, &mut db);
    assert_eq!(fees.get_next_block_fee(ResourceKind::Computation, &db), I256::from_u64(11));
    assert!(fees.get_current_block_fee(ResourceKind::Computation, &db).is_zero());
    fees.commit_next_to_current(&mut db);
    assert_eq!(fees.get_current_block_fee(ResourceKind::Computation, &db), I256::from_u64(11));
    assert_eq!(fees.get_current_block_fee(ResourceKind::WasmComputation, &db), minus_one);
    assert!(fees.get_current_block_fee(ResourceKind::L1Calldata, &db).is_zero());
    assert_eq!(fees.get_next_block_fee(ResourceKind::WasmComputation, &db), minus_one);
}

/// The signed word `-x`, for `x` above zero.
fn neg(x: u64) -> I256 {
    I256::from_raw(U256 { l0: 0u64.wrapping_sub(x), l1: u64::MAX, l2: u64::MAX, l3: u64::MAX })
}
