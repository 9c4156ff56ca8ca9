use arb_arbos::burn::SystemBurner;
use arb_arbos::l1pricing::{batch_poster_address, initialize_l1_pricing_state, open_l1_pricing_state};
use arb_arbos::poster_cost::{
    byte_count_after_brotli_level, l1_units_of, make_fake_tx_for_message, tx_type_has_poster_costs, FakeTx, Message,
    PosterTransaction, ARB_DEPOSIT_TX_TYPE, ARB_INTERNAL_TX_TYPE, ARB_LEGACY_TX_TYPE, ARB_RETRY_TX_TYPE,
    ARB_SUBMIT_RETRYABLE_TX_TYPE, ARB_UNSIGNED_TX_TYPE, ARB_CONTRACT_TX_TYPE, DYNAMIC_FEE_TX_TYPE,
};
use arb_arbos::storage::Storage;
use arb_arbos::word::{Address, B256, U256};

fn root() -> Storage<SystemBurner> {
    let mut bytes = [0xffu8; 20];
    bytes[0] = 0xa4;
    Storage { account: Address { bytes }, storage_key: vec![], burner: SystemBurner::new(None, false) }
}

fn message(data: Vec<u8>) -> Message<FakeTx> {
    Message {
        nonce: 3,
        gas_tip_cap: U256::from_u64(1),
        gas_fee_cap: U256::from_u64(2),
        gas_limit: 21000,
        is_gas_estimation: false,
        to: Some(Address { bytes: [0x22; 20] }),
        value: U256::from_u64(5),
        data,
        access_list: vec![],
        tx: None,
    }
}

#[test]
fn arbitrum_tx_types_have_no_poster_costs() {
    for t in [
        ARB_DEPOSIT_TX_TYPE,
        ARB_UNSIGNED_TX_TYPE,
        ARB_CONTRACT_TX_TYPE,
        ARB_RETRY_TX_TYPE,
        ARB_SUBMIT_RETRYABLE_TX_TYPE,
        ARB_INTERNAL_TX_TYPE,
        ARB_LEGACY_TX_TYPE,
    ] {
        assert!(!tx_type_has_poster_costs(t));
    }
    assert!(tx_type_has_poster_costs(0));
    assert!(tx_type_has_poster_costs(DYNAMIC_FEE_TX_TYPE));
    assert!(tx_type_has_poster_costs(103));
}

#[test]
fn brotli_size_shrinks_repetitive_data() {
    let data = vec![0u8; 1000];
    let n = byte_count_after_brotli_level(&data, 1);
    assert!(n > 0 && n < 100);
    assert_eq!(l1_units_of(&data, 1), 16 * n);
    assert_eq!(byte_count_after_brotli_level(&data, 11), byte_count_after_brotli_level(&data, 200));
}

#[test]
fn fake_tx_is_a_typed_rlp_list() {
    let m = message(vec![1, 2, 3]);
    let tx = make_fake_tx_for_message(&m);
    let bytes = tx.encode();
    assert_eq!(bytes[0], 2);
    assert!(bytes[1] >= 0xc0);
    assert_eq!(tx.tx_type(), DYNAMIC_FEE_TX_TYPE);
    // the payload holds the data bytes
    assert!(bytes.windows(4).any(|w| w == [0x83, 1, 2, 3]));
}

#[test]
fn fake_tx_encodes_the_access_list() {
    let mut m = message(vec![]);
    m.access_list = vec![(Address { bytes: [0x33; 20] }, vec![B256 { bytes: [0x44; 32] }])];
    let with = make_fake_tx_for_message(&m).encode();
    let without = make_fake_tx_for_message(&message(vec![])).encode();
    assert!(with.len() > without.len() + 50);
}

#[test]
fn poster_costs_only_for_the_batch_poster() {
    let mut db = revm::database::InMemoryDB::default();
    let sto = root();
    initialize_l1_pricing_state(&sto, &mut db, Address { bytes: [0xaa; 20] }, U256::from_u64(7));
    let st = open_l1_pricing_state(&sto, 20);
    let mut m = message(vec![9u8; 200]);
    // during estimation only the padding is charged for another poster
    let (cost, units) = st.poster_data_cost(&db, &mut m, Address { bytes: [1; 20] }, 1);
    assert_eq!(units, 256 * 10100 / 10000);
    assert_eq!(cost, U256::from_u64(7 * units));
    let (cost, units) = st.poster_data_cost(&db, &mut m, batch_poster_address(), 1);
    assert!(units > 0);
    assert_eq!(cost, U256::from_u64(7 * units));
    let fake = make_fake_tx_for_message(&m);
    let raw = st.get_poster_units_without_cache(&fake, batch_poster_address(), 1);
    assert_eq!(raw, l1_units_of(&fake.encode(), 1));
    assert_eq!(units, (raw + 256) * 10100 / 10000);
    assert_eq!(st.get_poster_units_without_cache(&fake, Address { bytes: [1; 20] }, 1), 0);
}
