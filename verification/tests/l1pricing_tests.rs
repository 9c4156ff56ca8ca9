use arb_arbos::batch_poster::{BatchPosterError, OpenPosterResult};
use arb_arbos::burn::SystemBurner;
use arb_arbos::l1pricing::{
    batch_poster_address, initialize_l1_pricing_state, l1_pricer_funds_pool_address, open_l1_pricing_state,
    L1PricingError, L1PricingState, UpdateSpendingError, INITIAL_EQUILIBRATION_UNITS_V0, INITIAL_INERTIA, INITIAL_PER_UNIT_REWARD,
};
use arb_arbos::statedb::TransferError;
use arb_arbos::storage::Storage;
use arb_arbos::word::{Address, I256, U256};
use revm::database::InMemoryDB;
use revm::state::AccountInfo;
use revm::DatabaseRef;

fn addr(last: u8) -> Address {
    let mut bytes = [0u8; 20];
    bytes[0] = 0x42;
    bytes[19] = last;
    Address { bytes }
}

fn root() -> Storage<SystemBurner> {
    let mut bytes = [0xffu8; 20];
    bytes[0] = 0xa4;
    bytes[1] = 0xb0;
    bytes[2] = 0x5f;
    Storage { account: Address { bytes }, storage_key: vec![], burner: SystemBurner::new(None, false) }
}

fn u(x: u64) -> U256 {
    U256::from_u64(x)
}

fn i(x: i64) -> I256 {
    if x >= 0 {
        I256::from_u64(x as u64)
    } else {
        neg(x.unsigned_abs())
    }
}

fn balance(db: &InMemoryDB, a: Address) -> u64 {
    let info = db.basic_ref(alloy_primitives::Address::new(a.bytes)).unwrap();
    let b = info.map(|i| i.balance).unwrap_or_default();
    b.to::<u64>()
}

fn fund(db: &mut InMemoryDB, a: Address, amount: u64) {
    db.insert_account_info(
        alloy_primitives::Address::new(a.bytes),
        AccountInfo { balance: alloy_primitives::U256::from(amount), ..Default::default() },
    );
}

fn fresh_state(db: &mut InMemoryDB, version: u64) -> L1PricingState<SystemBurner> {
    let sto = root();
    initialize_l1_pricing_state(&sto, db, addr(0xaa), u(100));
    open_l1_pricing_state(&sto, version)
}

fn poster_due(st: &mut L1PricingState<SystemBurner>, db: &mut InMemoryDB, p: Address) -> I256 {
    match st.batch_poster_table().open_poster(db, p, false) {
        Ok(ps) => ps.funds_due(db),
        Err(_) => panic!("poster missing"),
    }
}

#[test]
fn initialize_sets_initial_values() {
    let mut db = revm::database::InMemoryDB::default();
    let mut st = fresh_state(&mut db, 20);
    assert!(st.pay_rewards_to(&db).equals(&addr(0xaa)));
    assert_eq!(st.equilibration_units(&db), u(INITIAL_EQUILIBRATION_UNITS_V0));
    assert_eq!(INITIAL_EQUILIBRATION_UNITS_V0, 96_000_000);
    assert_eq!(st.inertia(&db), INITIAL_INERTIA);
    assert_eq!(st.per_unit_reward(&db), INITIAL_PER_UNIT_REWARD);
    assert_eq!(st.price_per_unit(&db), u(100));
    assert_eq!(st.last_update_time(&db), 0);
    assert_eq!(st.units_since_update(&db), 0);
    assert!(st.funds_due_for_rewards(&db).is_zero());
    assert!(st.l1_fees_available(&db).is_zero());
    let bp = batch_poster_address();
    assert!(st.batch_poster_table().contains_poster(&db, bp));
    let posters = st.batch_poster_table().all_posters(&db, 10);
    assert_eq!(posters.len(), 1);
    assert!(posters[0].equals(&bp));
    assert!(st.batch_poster_table().total_funds_due(&db).is_zero());
    match st.batch_poster_table().open_poster(&mut db, bp, false) {
        Ok(ps) => {
            assert!(ps.pay_to(&db).equals(&bp));
            assert!(ps.funds_due(&db).is_zero());
        },
        Err(_) => panic!("batch poster missing"),
    }
}

#[test]
fn known_addresses() {
    let bp = batch_poster_address();
    assert_eq!(bp.bytes[0], 0xa4);
    assert_eq!(bp.bytes[1], 0xb0);
    assert_eq!(&bp.bytes[11..], b"sequencer");
    let pool = l1_pricer_funds_pool_address();
    let mut expected = [0u8; 20];
    expected[19] = 0x6c;
    assert_eq!(pool.bytes, expected);
}

#[test]
fn setters_read_back() {
    let mut db = revm::database::InMemoryDB::default();
    let mut st = fresh_state(&mut db, 20);
    st.set_pay_rewards_to(&mut db, addr(7));
    assert!(st.pay_rewards_to(&db).equals(&addr(7)));
    st.set_equilibration_units(&mut db, u(1234));
    assert_eq!(st.equilibration_units(&db), u(1234));
    st.set_inertia(&mut db, 3);
    assert_eq!(st.inertia(&db), 3);
    st.set_per_unit_reward(&mut db, 9);
    assert_eq!(st.per_unit_reward(&db), 9);
    st.set_last_update_time(&mut db, 77);
    assert_eq!(st.last_update_time(&db), 77);
    st.set_funds_due_for_rewards(&mut db, i(-5));
    assert_eq!(st.funds_due_for_rewards(&db), i(-5));
    st.set_units_since_update(&mut db, 55);
    assert_eq!(st.units_since_update(&db), 55);
    st.set_price_per_unit(&mut db, u(8));
    assert_eq!(st.price_per_unit(&db), u(8));
    st.set_per_batch_gas_cost(&mut db, -12);
    assert_eq!(st.per_batch_gas_cost(&db), -12);
    st.set_amortized_cost_cap_bips(&mut db, 500);
    assert_eq!(st.amortized_cost_cap_bips(&db), 500);
    st.set_l1_fees_available(&mut db, u(999));
    assert_eq!(st.l1_fees_available(&db), u(999));
}

#[test]
fn parent_gas_floor_from_version_50() {
    let mut db = revm::database::InMemoryDB::default();
    let mut st = fresh_state(&mut db, 50);
    assert_eq!(st.set_parent_gas_floor_per_token(&mut db, 33), Ok(()));
    assert_eq!(st.parent_gas_floor_per_token(&db), 33);
    let mut old = open_l1_pricing_state(&root(), 40);
    assert_eq!(old.parent_gas_floor_per_token(&db), 0);
    assert_eq!(old.set_parent_gas_floor_per_token(&mut db, 44), Err(L1PricingError::NotSupported));
    assert_eq!(st.parent_gas_floor_per_token(&db), 33);
}

#[test]
fn last_surplus_keeps_magnitude_before_version_7() {
    let mut db = revm::database::InMemoryDB::default();
    let mut st = fresh_state(&mut db, 20);
    st.set_last_surplus(&mut db, i(-40), 6);
    assert_eq!(st.last_surplus(&db), i(40));
    st.set_last_surplus(&mut db, i(-40), 7);
    assert_eq!(st.last_surplus(&db), i(-40));
}

#[test]
fn add_to_units_saturates() {
    let mut db = revm::database::InMemoryDB::default();
    let mut st = fresh_state(&mut db, 20);
    st.add_to_units_since_update(&mut db, 10);
    st.add_to_units_since_update(&mut db, 5);
    assert_eq!(st.units_since_update(&db), 15);
    st.add_to_units_since_update(&mut db, u64::MAX);
    assert_eq!(st.units_since_update(&db), u64::MAX);
}

#[test]
fn add_to_l1_fees_available_adds() {
    let mut db = revm::database::InMemoryDB::default();
    let mut st = fresh_state(&mut db, 20);
    assert_eq!(st.add_to_l1_fees_available(&mut db, u(30)), u(30));
    assert_eq!(st.add_to_l1_fees_available(&mut db, u(12)), u(42));
    assert_eq!(st.l1_fees_available(&db), u(42));
}

#[test]
fn surplus_is_fees_minus_dues() {
    let mut db = revm::database::InMemoryDB::default();
    let mut st = fresh_state(&mut db, 20);
    st.set_l1_fees_available(&mut db, u(1000));
    st.set_funds_due_for_rewards(&mut db, i(300));
    let bp = batch_poster_address();
    match st.batch_poster_table().open_poster(&mut db, bp, false) {
        Ok(mut ps) => ps.set_funds_due(&mut db, i(200)),
        Err(_) => panic!("batch poster missing"),
    }
    assert_eq!(st.get_l1_pricing_surplus(&db), i(500));
    st.set_funds_due_for_rewards(&mut db, i(1300));
    assert_eq!(st.get_l1_pricing_surplus(&db), i(-500));
}

#[test]
fn transfer_from_fees_moves_balance() {
    let mut db = revm::database::InMemoryDB::default();
    let mut st = fresh_state(&mut db, 20);
    let pool = l1_pricer_funds_pool_address();
    fund(&mut db, pool, 1000);
    st.set_l1_fees_available(&mut db, u(800));
    let left = st.transfer_from_l1_fees_available(&mut db, addr(5), u(300));
    assert_eq!(left, Ok(u(500)));
    assert_eq!(st.l1_fees_available(&db), u(500));
    assert_eq!(balance(&db, pool), 700);
    assert_eq!(balance(&db, addr(5)), 300);
}

#[test]
fn transfer_beyond_the_fees_available_fails_after_moving_the_balance() {
    let mut db = InMemoryDB::default();
    let mut st = fresh_state(&mut db, 20);
    let pool = l1_pricer_funds_pool_address();
    fund(&mut db, pool, 1000);
    st.set_l1_fees_available(&mut db, u(100));
    let r = st.transfer_from_l1_fees_available(&mut db, addr(5), u(300));
    assert_eq!(r, Err(L1PricingError::InsufficientFunds));
    assert_eq!(st.l1_fees_available(&db), u(100));
    assert_eq!(balance(&db, pool), 700);
    assert_eq!(balance(&db, addr(5)), 300);
    let r = st.transfer_from_l1_fees_available(&mut db, addr(5), u(5000));
    assert_eq!(r, Err(L1PricingError::Transfer(TransferError::OutOfFunds)));
    assert_eq!(balance(&db, pool), 700);
}

#[test]
fn add_poster_twice_fails() {
    let mut db = revm::database::InMemoryDB::default();
    let mut st = fresh_state(&mut db, 20);
    let p = addr(0x11);
    assert!(!st.batch_poster_table().contains_poster(&db, p));
    match st.batch_poster_table().add_poster(&mut db, p, addr(0x12)) {
        Ok(ps) => assert!(ps.pay_to(&db).equals(&addr(0x12))),
        Err(_) => panic!("first add must succeed"),
    }
    assert!(st.batch_poster_table().contains_poster(&db, p));
    match st.batch_poster_table().add_poster(&mut db, p, addr(0x13)) {
        Err(OpenPosterResult::Semantic(e)) => assert_eq!(e, BatchPosterError::AlreadyExists),
        _ => panic!("second add must fail"),
    }
    match st.batch_poster_table().open_poster(&mut db, addr(0x14), false) {
        Err(OpenPosterResult::Semantic(e)) => assert_eq!(e, BatchPosterError::NotExist),
        _ => panic!("unknown poster must not open"),
    }
    assert_eq!(st.batch_poster_table().all_posters(&db, 10).len(), 2);
}

#[test]
fn total_funds_due_follows_the_posters() {
    let mut db = revm::database::InMemoryDB::default();
    let mut st = fresh_state(&mut db, 20);
    let p = addr(0x21);
    match st.batch_poster_table().add_poster(&mut db, p, p) {
        Ok(mut ps) => ps.set_funds_due(&mut db, i(70)),
        Err(_) => panic!("add must succeed"),
    }
    let bp = batch_poster_address();
    match st.batch_poster_table().open_poster(&mut db, bp, false) {
        Ok(mut ps) => ps.set_funds_due(&mut db, i(30)),
        Err(_) => panic!("batch poster missing"),
    }
    assert_eq!(st.batch_poster_table().total_funds_due(&db), i(100));
    match st.batch_poster_table().open_poster(&mut db, p, false) {
        Ok(mut ps) => ps.set_funds_due(&mut db, i(10)),
        Err(_) => panic!("poster missing"),
    }
    assert_eq!(st.batch_poster_table().total_funds_due(&db), i(40));
    let list = match st.batch_poster_table().get_funds_due_list(&mut db) {
        Ok(l) => l,
        Err(_) => panic!("list must succeed"),
    };
    assert_eq!(list.len(), 2);
}

fn prepare(db: &mut InMemoryDB, version: u64) -> L1PricingState<SystemBurner> {
    let mut st = fresh_state(db, version);
    st.set_units_since_update(db, 1000);
    st.set_last_update_time(db, 50);
    st.set_l1_fees_available(db, u(20000));
    st.set_equilibration_units(db, u(1000));
    fund(db, l1_pricer_funds_pool_address(), 20000);
    st
}

#[test]
fn update_for_spending_from_version_10() {
    let mut db = revm::database::InMemoryDB::default();
    let mut st = prepare(&mut db, 20);
    let bp = batch_poster_address();
    let r = st.update_for_batch_poster_spending(&mut db, 20, 100, 100, bp, u(5000), u(1));
    assert!(r.is_ok());
    assert_eq!(st.units_since_update(&db), 0);
    assert!(st.funds_due_for_rewards(&db).is_zero());
    assert_eq!(st.l1_fees_available(&db), u(5000));
    assert_eq!(balance(&db, l1_pricer_funds_pool_address()), 5000);
    assert_eq!(balance(&db, addr(0xaa)), 10000);
    assert_eq!(balance(&db, bp), 5000);
    assert!(poster_due(&mut st, &mut db, bp).is_zero());
    assert!(st.batch_poster_table().total_funds_due(&db).is_zero());
    assert_eq!(st.last_update_time(&db), 100);
    assert_eq!(st.last_surplus(&db), i(5000));
    assert_eq!(st.price_per_unit(&db), u(90));
    // the recorded surplus is the current one
    assert_eq!(st.get_l1_pricing_surplus(&db), st.last_surplus(&db));
    // the fees available fell by just what left the pool
    assert_eq!(20000 - 5000, 20000 - balance(&db, l1_pricer_funds_pool_address()));
}

#[test]
fn update_for_spending_caps_the_spending() {
    let mut db = revm::database::InMemoryDB::default();
    let mut st = prepare(&mut db, 20);
    st.set_amortized_cost_cap_bips(&mut db, 10_000);
    let bp = batch_poster_address();
    // the cap is basefee * units * bips / 10000 = 2 * 1000 = 2000 < 5000
    let r = st.update_for_batch_poster_spending(&mut db, 20, 100, 100, bp, u(5000), u(2));
    assert!(r.is_ok());
    assert_eq!(balance(&db, bp), 2000);
    assert_eq!(st.l1_fees_available(&db), u(8000));
}

#[test]
fn update_for_spending_rejects_a_time_in_the_future() {
    let mut db = revm::database::InMemoryDB::default();
    let mut st = prepare(&mut db, 20);
    let bp = batch_poster_address();
    let r = st.update_for_batch_poster_spending(&mut db, 20, 101, 100, bp, u(5000), u(1));
    assert!(matches!(r, Err(UpdateSpendingError::InvalidTime)));
    let r = st.update_for_batch_poster_spending(&mut db, 20, 40, 100, bp, u(5000), u(1));
    assert!(matches!(r, Err(UpdateSpendingError::InvalidTime)));
    assert_eq!(st.units_since_update(&db), 1000);
}

#[test]
fn update_for_spending_before_version_10() {
    let mut db = revm::database::InMemoryDB::default();
    let mut st = prepare(&mut db, 5);
    let bp = batch_poster_address();
    let r = st.update_for_batch_poster_spending(&mut db, 5, 100, 100, bp, u(5000), u(1));
    assert!(r.is_ok());
    assert_eq!(st.units_since_update(&db), 0);
    assert!(st.funds_due_for_rewards(&db).is_zero());
    assert_eq!(balance(&db, l1_pricer_funds_pool_address()), 5000);
    assert_eq!(balance(&db, addr(0xaa)), 10000);
    assert_eq!(balance(&db, bp), 5000);
    assert!(poster_due(&mut st, &mut db, bp).is_zero());
    assert_eq!(st.last_update_time(&db), 100);
    assert_eq!(st.last_surplus(&db), i(5000));
    assert_eq!(st.price_per_unit(&db), u(90));
    // the fees available are not touched before version 10
    assert_eq!(st.l1_fees_available(&db), u(20000));
}

#[test]
fn update_for_spending_before_version_2() {
    let mut db = revm::database::InMemoryDB::default();
    let mut st = prepare(&mut db, 1);
    let bp = batch_poster_address();
    let r = st.update_for_batch_poster_spending(&mut db, 1, 100, 200, bp, u(5000), u(1));
    assert!(r.is_ok());
    assert_eq!(st.units_since_update(&db), 667);
    assert!(st.funds_due_for_rewards(&db).is_zero());
    assert_eq!(balance(&db, addr(0xaa)), 3330);
    assert_eq!(balance(&db, bp), 3336);
    assert_eq!(balance(&db, l1_pricer_funds_pool_address()), 13334);
    assert_eq!(poster_due(&mut st, &mut db, bp), i(1664));
    assert_eq!(st.batch_poster_table().total_funds_due(&db), i(1664));
    assert_eq!(st.last_update_time(&db), 100);
    assert_eq!(st.price_per_unit(&db), u(80));
}

#[test]
fn update_before_version_2_wraps_the_units_product() {
    let mut db = InMemoryDB::default();
    let mut st = prepare(&mut db, 1);
    st.set_units_since_update(&mut db, 1 << 63);
    let bp = batch_poster_address();
    // 2^63 * 50 is 0 modulo 2^64, so no units are taken
    let r = st.update_for_batch_poster_spending(&mut db, 1, 100, 150, bp, u(0), u(1));
    assert!(r.is_ok());
    assert_eq!(st.units_since_update(&db), 1 << 63);
    assert_eq!(st.price_per_unit(&db), u(100));
}

#[test]
fn update_before_version_2_ignores_a_bad_time() {
    let mut db = revm::database::InMemoryDB::default();
    let mut st = prepare(&mut db, 1);
    let bp = batch_poster_address();
    let r = st.update_for_batch_poster_spending(&mut db, 1, 100, 100, bp, u(5000), u(1));
    assert!(r.is_ok());
    assert_eq!(st.units_since_update(&db), 1000);
    assert_eq!(st.last_update_time(&db), 50);
    assert_eq!(st.price_per_unit(&db), u(100));
}

/// The signed word `-x`, for `x` above zero.
fn neg(x: u64) -> I256 {
    I256::from_raw(U256 { l0: 0u64.wrapping_sub(x), l1: u64::MAX, l2: u64::MAX, l3: u64::MAX })
}

/// What the tests compare of two states after an update.
fn observed(st: &mut L1PricingState<SystemBurner>, db: &mut InMemoryDB) -> (u64, u64, U256, u64, u64, u64, I256, I256) {
    let bp = batch_poster_address();
    (
        st.units_since_update(db),
        st.last_update_time(db),
        st.price_per_unit(db),
        balance(db, l1_pricer_funds_pool_address()),
        balance(db, addr(0xaa)),
        balance(db, bp),
        poster_due(st, db, bp),
        st.last_surplus(db),
    )
}

#[test]
fn update_below_version_10_is_the_pre_version_10_update() {
    let bp = batch_poster_address();
    let mut db1 = InMemoryDB::default();
    let mut st1 = prepare(&mut db1, 5);
    let r1 = st1.update_for_batch_poster_spending(&mut db1, 5, 100, 150, bp, u(5000), u(1));
    let mut db2 = InMemoryDB::default();
    let mut st2 = prepare(&mut db2, 5);
    let r2 = st2.pre_version10_update_for_batch_poster_spending(&mut db2, 5, 100, 150, bp, u(5000), u(1));
    assert!(r1.is_ok() && r2.is_ok());
    assert_eq!(observed(&mut st1, &mut db1), observed(&mut st2, &mut db2));
}

#[test]
fn update_below_version_2_is_the_first_versions_update_whatever_the_basefee() {
    let bp = batch_poster_address();
    let mut db1 = InMemoryDB::default();
    let mut st1 = prepare(&mut db1, 1);
    let r1 = st1.pre_version10_update_for_batch_poster_spending(&mut db1, 1, 100, 200, bp, u(5000), u(1));
    let mut db2 = InMemoryDB::default();
    let mut st2 = prepare(&mut db2, 1);
    let r2 = st2.pre_version2_update_for_batch_poster_spending(&mut db2, 100, 200, bp, u(5000));
    let mut db3 = InMemoryDB::default();
    let mut st3 = prepare(&mut db3, 1);
    let r3 = st3.pre_version10_update_for_batch_poster_spending(&mut db3, 1, 100, 200, bp, u(5000), u(77));
    assert!(r1.is_ok() && r2.is_ok() && r3.is_ok());
    let o1 = observed(&mut st1, &mut db1);
    assert_eq!(o1, observed(&mut st2, &mut db2));
    assert_eq!(o1, observed(&mut st3, &mut db3));
    // out-of-order times are not an error before version 2
    let r4 = st1.pre_version10_update_for_batch_poster_spending(&mut db1, 1, 300, 200, bp, u(5000), u(1));
    assert!(r4.is_ok());
}

#[test]
fn update_from_version_10_pays_where_fees_exceed_the_pool() {
    let mut db = InMemoryDB::default();
    let mut st = prepare(&mut db, 20);
    // more fees recorded than the pool holds; what is paid still fits
    st.set_l1_fees_available(&mut db, u(30000));
    let bp = batch_poster_address();
    let r = st.update_for_batch_poster_spending(&mut db, 20, 100, 100, bp, u(5000), u(1));
    assert!(r.is_ok());
    assert_eq!(balance(&db, l1_pricer_funds_pool_address()), 5000);
    assert_eq!(balance(&db, addr(0xaa)), 10000);
    assert_eq!(balance(&db, bp), 5000);
    assert_eq!(st.l1_fees_available(&db), u(15000));
    assert!(poster_due(&mut st, &mut db, bp).is_zero());
}
