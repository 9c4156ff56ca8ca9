use arb_arbos::burn::{Burner, SystemBurner, TracingInfo, TracingScenario};
use arb_arbos::multigas::ResourceKind;
use arb_arbos::queue::Queue;
use arb_arbos::statedb::{transfer, TransferError};
use arb_arbos::storage::{address_to_word, word_to_address, Storage};
use arb_arbos::vector::{u64_be_bytes, SubStorageVector};
use arb_arbos::word::{Address, I256, U256};
use revm::state::AccountInfo;
use revm::DatabaseRef;

fn root() -> Storage<SystemBurner> {
    let mut bytes = [0xffu8; 20];
    bytes[0] = 0xa4;
    Storage { account: Address { bytes }, storage_key: vec![], burner: SystemBurner::new(None, false) }
}

fn u(x: u64) -> U256 {
    U256::from_u64(x)
}

#[test]
fn slots_read_back_what_was_written() {
    let mut db = revm::database::InMemoryDB::default();
    let sto = root();
    assert_eq!(sto.get_by_uint64(&db, 5), U256::zero());
    sto.set_by_uint64(&mut db, 5, u(77));
    sto.set_uint64_by_uint64(&mut db, 6, 88);
    assert_eq!(sto.get_by_uint64(&db, 5), u(77));
    assert_eq!(sto.get_uint64_by_uint64(&db, 6), 88);
    sto.clear_by_uint64(&mut db, 5);
    assert_eq!(sto.get_by_uint64(&db, 5), U256::zero());
    sto.set_by_key(&mut db, u(1000), u(3));
    assert_eq!(sto.get_by_key(&db, u(1000)), u(3));
    let old = sto.swap(&mut db, u(1000), u(4));
    assert_eq!(old, u(3));
    assert_eq!(sto.get_by_key(&db, u(1000)), u(4));
}

#[test]
fn child_spaces_are_separate() {
    let mut db = revm::database::InMemoryDB::default();
    let sto = root();
    let a = sto.open_sub_storage(&[1u8]);
    let b = sto.open_sub_storage(&[2u8]);
    assert_eq!(a.storage_key.len(), 32);
    assert_ne!(a.storage_key, b.storage_key);
    a.set_by_uint64(&mut db, 0, u(1));
    b.set_by_uint64(&mut db, 0, u(2));
    assert_eq!(a.get_by_uint64(&db, 0), u(1));
    assert_eq!(b.get_by_uint64(&db, 0), u(2));
    let c = sto.open_cached_sub_storage(&[1u8]);
    assert_eq!(c.storage_key, a.storage_key);
}

#[test]
fn slot_of_key_keeps_its_last_byte() {
    let sto = root();
    let slot = sto.map_address(0x1234);
    assert_eq!(slot.l0 & 0xff, 0x34);
    let child = sto.open_sub_storage(&[9u8]);
    assert_ne!(child.map_address(0x1234), slot);
}

#[test]
fn slots_of_one_page_differ_as_their_keys() {
    let sto = root().open_sub_storage(&[6u8]);
    let a = sto.map_address(0x12ff);
    let b = sto.map_address(0x1234);
    assert_eq!(a.l1, b.l1);
    assert_eq!(a.l2, b.l2);
    assert_eq!(a.l3, b.l3);
    assert_eq!(a.l0 - b.l0, 0xff - 0x34);
    // another page has other leading bytes
    let c = sto.map_address(0x1334);
    assert_eq!(c.l0 & 0xff, 0x34);
    assert_ne!(c, b);
}

#[test]
fn first_offsets_sit_in_distinct_slots() {
    let sto = root().open_sub_storage(&[5u8]);
    let mut seen: Vec<U256> = Vec::new();
    for k in 0u64..256 {
        let slot = sto.map_address(k);
        assert_eq!(slot.l0 & 0xff, k);
        assert!(!seen.contains(&slot));
        seen.push(slot);
    }
}

#[test]
fn bytes_read_back_what_was_written() {
    let mut db = revm::database::InMemoryDB::default();
    let sto = root().open_sub_storage(&[3u8]);
    for len in [0usize, 1, 31, 32, 33, 64, 100] {
        let data: Vec<u8> = (0..len).map(|i| (i * 7 + 1) as u8).collect();
        sto.set_bytes(&mut db, &data);
        assert_eq!(sto.get_bytes_size(&db), len as u64);
        assert_eq!(sto.get_bytes(&db), data);
    }
    // a shorter string leaves the slots past it cleared
    sto.set_bytes(&mut db, &[1u8; 100]);
    sto.set_bytes(&mut db, &[2u8; 5]);
    for offset in 2..=4u64 {
        assert_eq!(sto.get_by_uint64(&db, offset), U256::zero());
    }
    sto.clear_bytes(&mut db);
    assert_eq!(sto.get_bytes_size(&db), 0);
    assert_eq!(sto.get_bytes(&db), Vec::<u8>::new());
}

#[test]
fn storage_backed_values_read_back() {
    let mut db = revm::database::InMemoryDB::default();
    let sto = root();
    let mut a = sto.open_storage_backed_uint64(1);
    a.set(&mut db, 12);
    assert_eq!(a.get(&db), 12);
    assert_eq!(a.increment(&mut db), 13);
    assert_eq!(a.decrement(&mut db), 12);
    let mut b = sto.open_storage_backed_uint32(2);
    b.set(&mut db, 7);
    assert_eq!(b.get(&db), 7);
    let mut c = sto.open_storage_backed_int64(3);
    c.set(&mut db, -9);
    assert_eq!(c.get(&db), -9);
    let mut d = sto.open_storage_backed_big_uint(4);
    d.set_checked(&mut db, u(1 << 40));
    assert_eq!(d.get(&db), u(1 << 40));
    let mut e = sto.open_storage_backed_big_int(5);
    let minus_two = neg(2);
    e.set_checked(&mut db, minus_two);
    assert_eq!(e.get(&db), minus_two);
    e.set_pre_version7(&mut db, minus_two);
    assert_eq!(e.get(&db), I256::from_u64(2));
    let mut f = sto.open_storage_backed_address(6);
    let addr = Address { bytes: [5u8; 20] };
    f.set(&mut db, addr);
    assert!(f.get(&db).equals(&addr));
    let mut g = sto.open_storage_backed_address_or_nil(7);
    // an unset slot holds the zero address; only the nil word reads as none
    assert!(g.get(&db).unwrap().equals(&Address { bytes: [0u8; 20] }));
    g.set(&mut db, Some(addr));
    assert!(g.get(&db).unwrap().equals(&addr));
    g.set(&mut db, None);
    assert!(g.get(&db).is_none());
    let h = sto.open_storage_backed_bytes(&[8u8]);
    h.set(&mut db, &[1, 2, 3]);
    assert_eq!(h.get(&db), vec![1, 2, 3]);
    assert_eq!(h.size(&db), 3);
}

#[test]
fn address_word_roundtrip() {
    let a = Address { bytes: [0xab; 20] };
    let w = address_to_word(a);
    assert_eq!(w.l3, 0);
    assert_eq!(w.l2, 0xabab_abab);
    assert_eq!(w.l1, 0xabab_abab_abab_abab);
    assert!(word_to_address(w).equals(&a));
}

#[test]
fn queue_is_first_in_first_out() {
    let mut db = revm::database::InMemoryDB::default();
    let sto = root().open_sub_storage(&[4u8]);
    Queue::initialize(&sto, &mut db);
    let mut q = Queue::open(&sto);
    assert!(q.is_empty(&db));
    assert!(q.peek(&db).is_none());
    assert!(q.get(&mut db).is_none());
    q.put(&mut db, u(10));
    q.put(&mut db, u(20));
    q.put(&mut db, u(30));
    assert_eq!(q.size(&db), 3);
    assert_eq!(q.peek(&db), Some(u(10)));
    assert_eq!(q.get(&mut db), Some(u(10)));
    assert_eq!(q.get(&mut db), Some(u(20)));
    assert!(!q.shift(&mut db));
    q.put(&mut db, u(40));
    assert_eq!(q.get(&mut db), Some(u(30)));
    assert_eq!(q.get(&mut db), Some(u(40)));
    assert!(q.is_empty(&db));
    assert!(q.shift(&mut db));
    assert_eq!(sto.get_uint64_by_uint64(&db, 0), 2);
    assert_eq!(sto.get_uint64_by_uint64(&db, 1), 2);
    // a taken entry's slot is cleared
    assert_eq!(sto.get_by_uint64(&db, 2), U256::zero());
}

#[test]
fn queue_for_each_stops_when_asked() {
    let mut db = revm::database::InMemoryDB::default();
    let sto = root().open_sub_storage(&[5u8]);
    Queue::initialize(&sto, &mut db);
    let mut q = Queue::open(&sto);
    for v in [1u64, 2, 3, 4] {
        q.put(&mut db, u(v));
    }
    let seen = std::cell::RefCell::new(Vec::new());
    q.for_each(&db, |i, v| {
        seen.borrow_mut().push((i, v.l0));
        v.l0 == 3
    });
    assert_eq!(seen.into_inner(), vec![(0, 1), (1, 2), (2, 3)]);
}

#[test]
fn vector_push_and_pop() {
    let mut db = revm::database::InMemoryDB::default();
    let sto = root().open_sub_storage(&[6u8]);
    let mut v = SubStorageVector::open(&sto);
    assert_eq!(v.length(&db), 0);
    let first = v.push(&mut db);
    let second = v.push(&mut db);
    assert_eq!(v.length(&db), 2);
    assert_eq!(v.at(0).storage_key, first.storage_key);
    assert_eq!(v.at(1).storage_key, second.storage_key);
    assert_ne!(first.storage_key, second.storage_key);
    let popped = v.pop(&mut db);
    assert_eq!(popped.storage_key, second.storage_key);
    assert_eq!(v.length(&db), 1);
    let again = v.push(&mut db);
    assert_eq!(again.storage_key, second.storage_key);
    let expected = sto.open_sub_storage(&1u64.to_be_bytes());
    assert_eq!(second.storage_key, expected.storage_key);
}

#[test]
fn be_bytes_of_u64() {
    assert_eq!(u64_be_bytes(0x0102030405060708), vec![1, 2, 3, 4, 5, 6, 7, 8]);
    assert_eq!(u64_be_bytes(0), vec![0; 8]);
}

#[test]
fn transfers_move_balances() {
    let mut db = revm::database::InMemoryDB::default();
    let a = Address { bytes: [1u8; 20] };
    let b = Address { bytes: [2u8; 20] };
    db.insert_account_info(
        alloy_primitives::Address::new(a.bytes),
        AccountInfo { balance: alloy_primitives::U256::from(100u64), ..Default::default() },
    );
    assert!(transfer(&mut db, a, b, u(30)).is_ok());
    let bal = |db: &revm::database::InMemoryDB, x: Address| -> u64 {
        db.basic_ref(alloy_primitives::Address::new(x.bytes)).unwrap().map(|i| i.balance).unwrap_or_default().to::<u64>()
    };
    assert_eq!(bal(&db, a), 70);
    assert_eq!(bal(&db, b), 30);
    assert_eq!(transfer(&mut db, a, b, u(71)), Err(TransferError::OutOfFunds));
    assert_eq!(transfer(&mut db, a, a, u(71)), Err(TransferError::OutOfFunds));
    assert!(transfer(&mut db, a, a, u(70)).is_ok());
    assert!(transfer(&mut db, b, a, U256::zero()).is_ok());
    assert_eq!(bal(&db, a), 70);
}

#[test]
fn system_burner_counts_gas() {
    let mut b = SystemBurner::new(None, true);
    assert!(b.read_only());
    assert!(b.burn(ResourceKind::Computation, 10).is_ok());
    assert!(b.burn(ResourceKind::StorageAccess, 5).is_ok());
    assert_eq!(b.burned(), 15);
    assert!(b.burn_multi_gas(arb_arbos::multigas::MultiGas::l1_calldata(7)).is_ok());
    assert_eq!(b.burned(), 22);
    assert!(!SystemBurner::new(None, false).read_only());
}

#[test]
fn system_burner_hands_out_its_tracing_info() {
    let info = TracingInfo {
        caller: Address { bytes: [1u8; 20] },
        contract: Address { bytes: [2u8; 20] },
        scenario: TracingScenario::DuringEvm,
        depth: 3,
    };
    let mut b = SystemBurner::new(Some(info), false);
    assert!(b.burn(ResourceKind::Computation, 10).is_ok());
    let got = b.tracing_info().expect("tracing info kept");
    assert_eq!(got.caller.bytes, [1u8; 20]);
    assert_eq!(got.contract.bytes, [2u8; 20]);
    assert_eq!(got.scenario, TracingScenario::DuringEvm);
    assert_eq!(got.depth, 3);
    assert!(SystemBurner::new(None, false).tracing_info().is_none());
}

/// The signed word `-x`, for `x` above zero.
fn neg(x: u64) -> I256 {
    I256::from_raw(U256 { l0: 0u64.wrapping_sub(x), l1: u64::MAX, l2: u64::MAX, l3: u64::MAX })
}

#[test]
fn transfer_that_overflows_the_recipient_fails() {
    let mut db = revm::database::InMemoryDB::default();
    let a = Address { bytes: [3u8; 20] };
    let b = Address { bytes: [4u8; 20] };
    db.insert_account_info(
        alloy_primitives::Address::new(a.bytes),
        AccountInfo { balance: alloy_primitives::U256::from(100u64), ..Default::default() },
    );
    db.insert_account_info(
        alloy_primitives::Address::new(b.bytes),
        AccountInfo { balance: alloy_primitives::U256::MAX - alloy_primitives::U256::from(10u64), ..Default::default() },
    );
    assert_eq!(transfer(&mut db, a, b, u(20)), Err(TransferError::OverflowPayment));
    // the sender has been debited
    let info = db.basic_ref(alloy_primitives::Address::new(a.bytes)).unwrap().unwrap();
    assert_eq!(info.balance, alloy_primitives::U256::from(80u64));
}
