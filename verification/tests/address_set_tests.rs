use arb_arbos::address_set::{AddressSet, RectifyError};
use arb_arbos::burn::SystemBurner;
use arb_arbos::storage::Storage;
use arb_arbos::word::Address;

fn space(id: u8) -> Storage<SystemBurner> {
    let mut bytes = [0xffu8; 20];
    bytes[0] = 0xa4;
    let root = Storage { account: Address { bytes }, storage_key: vec![], burner: SystemBurner::new(None, false) };
    root.open_sub_storage(&[id])
}

fn a(n: u8) -> Address {
    let mut bytes = [0u8; 20];
    bytes[0] = 0x10;
    bytes[19] = n;
    Address { bytes }
}

fn members(set: &mut AddressSet<SystemBurner>, db: &revm::database::InMemoryDB) -> Vec<u8> {
    set.all_members(db, 100).iter().map(|m| m.bytes[19]).collect()
}

fn setup() -> (revm::database::InMemoryDB, AddressSet<SystemBurner>) {
    let mut db = revm::database::InMemoryDB::default();
    let mut sto = space(1);
    AddressSet::initialize(&mut sto, &mut db);
    (db, AddressSet::new(sto))
}

#[test]
fn add_makes_members_in_order() {
    let (mut db, mut set) = setup();
    assert_eq!(set.size(&db), 0);
    assert!(set.get_any_member(&db).is_none());
    set.add(&mut db, a(1));
    set.add(&mut db, a(2));
    set.add(&mut db, a(3));
    set.add(&mut db, a(2));
    assert_eq!(set.size(&db), 3);
    assert!(set.is_member(&db, a(2)));
    assert!(!set.is_member(&db, a(4)));
    assert_eq!(members(&mut set, &db), vec![1, 2, 3]);
    assert!(set.get_any_member(&db).unwrap().equals(&a(1)));
    assert_eq!(set.all_members(&db, 2).len(), 2);
}

#[test]
fn remove_moves_the_last_member() {
    let (mut db, mut set) = setup();
    for n in 1..=4 {
        set.add(&mut db, a(n));
    }
    set.remove(&mut db, a(2), 11);
    assert!(!set.is_member(&db, a(2)));
    assert_eq!(members(&mut set, &db), vec![1, 4, 3]);
    set.remove(&mut db, a(3), 11);
    assert_eq!(members(&mut set, &db), vec![1, 4]);
    set.remove(&mut db, a(9), 11);
    assert_eq!(members(&mut set, &db), vec![1, 4]);
    set.add(&mut db, a(2));
    assert_eq!(members(&mut set, &db), vec![1, 4, 2]);
    assert!(set.is_member(&db, a(4)));
}

#[test]
fn clear_removes_everything() {
    let (mut db, mut set) = setup();
    for n in 1..=3 {
        set.add(&mut db, a(n));
    }
    set.clear(&mut db);
    assert_eq!(set.size(&db), 0);
    for n in 1..=3 {
        assert!(!set.is_member(&db, a(n)));
    }
    set.add(&mut db, a(7));
    assert_eq!(members(&mut set, &db), vec![7]);
}

#[test]
fn clear_list_keeps_the_index() {
    let (mut db, mut set) = setup();
    set.add(&mut db, a(1));
    set.add(&mut db, a(2));
    set.clear_list(&mut db);
    assert_eq!(set.size(&db), 0);
    assert!(set.is_member(&db, a(1)));
}

#[test]
fn rectify_repairs_a_stale_offset() {
    let (mut db, mut set) = setup();
    for n in 1..=3 {
        set.add(&mut db, a(n));
    }
    // before version 11 the moved member keeps its old offset
    set.remove(&mut db, a(1), 10);
    assert_eq!(members(&mut set, &db), vec![3, 2]);
    assert!(set.rectify_mapping(&mut db, a(3)).is_ok());
    assert!(set.is_member(&db, a(3)));
    assert_eq!(set.size(&db), 3);
}

#[test]
fn rectify_refuses_non_members_and_right_offsets() {
    let (mut db, mut set) = setup();
    set.add(&mut db, a(1));
    set.add(&mut db, a(2));
    assert_eq!(set.rectify_mapping(&mut db, a(9)), Err(RectifyError::NotAnOwner));
    assert_eq!(set.rectify_mapping(&mut db, a(2)), Err(RectifyError::CorrectlyMapped));
    assert_eq!(members(&mut set, &db), vec![1, 2]);
    assert_eq!(RectifyError::NotAnOwner.message(), "RectifyMapping: Address is not an owner");
    assert_eq!(RectifyError::CorrectlyMapped.message(), "RectifyMapping: Owner address is correctly mapped");
}

#[test]
fn the_zero_address_is_a_member_like_any_other() {
    let (mut db, mut set) = setup();
    let zero = Address { bytes: [0u8; 20] };
    set.add(&mut db, zero);
    assert!(set.get_any_member(&db).unwrap().equals(&zero));
}

#[test]
fn remove_clears_the_last_slot_and_ignores_non_members() {
    let mut db = revm::database::InMemoryDB::default();
    let mut sto = space(1);
    AddressSet::initialize(&mut sto, &mut db);
    let mut set = AddressSet::new(space(1));
    set.add(&mut db, a(1));
    set.add(&mut db, a(2));
    set.remove(&mut db, a(1), 11);
    assert_eq!(sto.get_by_uint64(&db, 2), arb_arbos::word::U256::zero());
    let before = sto.get_by_uint64(&db, 1);
    set.remove(&mut db, a(7), 11);
    assert_eq!(sto.get_by_uint64(&db, 1), before);
    assert_eq!(set.size(&db), 1);
}

#[test]
fn add_then_remove_gives_back_the_members() {
    let (mut db, mut set) = setup();
    set.add(&mut db, a(1));
    set.add(&mut db, a(2));
    set.add(&mut db, a(3));
    set.remove(&mut db, a(3), 11);
    assert_eq!(members(&mut set, &db), vec![1, 2]);
    assert!(!set.is_member(&db, a(3)));
}
