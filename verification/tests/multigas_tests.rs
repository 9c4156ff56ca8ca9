use arb_arbos::multigas::{check_resource_kind, saturating_scalar_add, saturating_scalar_sub, MultiGas, Pair, ResourceKind};

#[test]
fn zero_is_zero() {
    let z = MultiGas::zero();
    assert!(z.is_zero());
    assert_eq!(z.single_gas(), 0);
    assert_eq!(z.get_refund(), 0);
    assert_eq!(MultiGas::default(), z);
}

#[test]
fn new_sets_one_kind_and_total() {
    let m = MultiGas::new(ResourceKind::StorageAccess, 42);
    assert_eq!(m.get(ResourceKind::StorageAccess), 42);
    assert_eq!(m.get(ResourceKind::Computation), 0);
    assert_eq!(m.single_gas(), 42);
    assert!(!m.is_zero());
}

#[test]
fn constructors_per_kind() {
    assert_eq!(MultiGas::computation(1).get(ResourceKind::Computation), 1);
    assert_eq!(MultiGas::history_growth(2).get(ResourceKind::HistoryGrowth), 2);
    assert_eq!(MultiGas::storage_access(3).get(ResourceKind::StorageAccess), 3);
    assert_eq!(MultiGas::storage_growth(4).get(ResourceKind::StorageGrowth), 4);
    assert_eq!(MultiGas::l1_calldata(5).get(ResourceKind::L1Calldata), 5);
    assert_eq!(MultiGas::l2_calldata(6).get(ResourceKind::L2Calldata), 6);
    assert_eq!(MultiGas::wasm_computation(7).get(ResourceKind::WasmComputation), 7);
    assert_eq!(MultiGas::wasm_computation(7).single_gas(), 7);
}

#[test]
fn from_pairs_sums_and_later_pairs_win() {
    let pairs = [
        Pair { kind: ResourceKind::Computation, amount: 10 },
        Pair { kind: ResourceKind::L1Calldata, amount: 20 },
        Pair { kind: ResourceKind::Computation, amount: 5 },
    ];
    let m = MultiGas::from_pairs(&pairs);
    assert_eq!(m.get(ResourceKind::Computation), 5);
    assert_eq!(m.get(ResourceKind::L1Calldata), 20);
    assert_eq!(m.single_gas(), 25);
}

#[test]
fn with_replaces_one_kind() {
    let m = MultiGas::computation(10);
    let (r, overflow) = m.with(ResourceKind::Computation, 3);
    assert!(!overflow);
    assert_eq!(r.get(ResourceKind::Computation), 3);
    assert_eq!(r.single_gas(), 3);
    let (r, overflow) = r.with(ResourceKind::StorageGrowth, u64::MAX);
    assert!(overflow);
    assert_eq!(r.get(ResourceKind::StorageGrowth), 0);
    assert_eq!(r.single_gas(), 3);
}

#[test]
fn refund_lowers_single_gas() {
    let m = MultiGas::computation(10).with_refund(4);
    assert_eq!(m.get_refund(), 4);
    assert_eq!(m.single_gas(), 6);
    let m = MultiGas::computation(3).with_refund(4);
    assert_eq!(m.single_gas(), 0);
}

#[test]
fn safe_add_adds_and_reports_overflow() {
    let a = MultiGas::computation(10).with_refund(1);
    let b = MultiGas::l2_calldata(5).with_refund(2);
    let (s, overflow) = a.safe_add(&b);
    assert!(!overflow);
    assert_eq!(s.get(ResourceKind::Computation), 10);
    assert_eq!(s.get(ResourceKind::L2Calldata), 5);
    assert_eq!(s.get_refund(), 3);
    assert_eq!(s.single_gas(), 12);
    let big = MultiGas::computation(u64::MAX);
    let (r, overflow) = big.safe_add(&a);
    assert!(overflow);
    assert_eq!(r, big);
}

#[test]
fn saturating_add_stops_at_max() {
    let big = MultiGas::computation(u64::MAX);
    let r = big.saturating_add(&MultiGas::computation(1));
    assert_eq!(r.get(ResourceKind::Computation), u64::MAX);
    assert_eq!(r.single_gas(), u64::MAX);
    let mut acc = MultiGas::zero();
    acc.saturating_add_into(&MultiGas::storage_access(7));
    acc.saturating_add_into(&MultiGas::storage_access(8));
    assert_eq!(acc.get(ResourceKind::StorageAccess), 15);
    assert_eq!(acc.single_gas(), 15);
}

#[test]
fn safe_sub_subtracts_and_reports_underflow() {
    let a = MultiGas::computation(10).with_refund(3);
    let b = MultiGas::computation(4).with_refund(1);
    let (d, underflow) = a.safe_sub(&b);
    assert!(!underflow);
    assert_eq!(d.get(ResourceKind::Computation), 6);
    assert_eq!(d.get_refund(), 2);
    assert_eq!(d.single_gas(), 4);
    let (r, underflow) = b.safe_sub(&a);
    assert!(underflow);
    assert_eq!(r, b);
}

#[test]
fn saturating_sub_clamps_at_zero() {
    let a = MultiGas::computation(3);
    let r = a.saturating_sub(&MultiGas::computation(10));
    assert_eq!(r.get(ResourceKind::Computation), 0);
    assert_eq!(r.single_gas(), 0);
}

#[test]
fn increments_and_decrements() {
    let m = MultiGas::zero();
    let (m, overflow) = m.safe_increment(ResourceKind::L1Calldata, 9);
    assert!(!overflow);
    assert_eq!(m.get(ResourceKind::L1Calldata), 9);
    assert_eq!(m.single_gas(), 9);
    let (same, overflow) = m.safe_increment(ResourceKind::L1Calldata, u64::MAX);
    assert!(overflow);
    assert_eq!(same, m);
    let s = m.saturating_increment(ResourceKind::L1Calldata, u64::MAX);
    assert_eq!(s.get(ResourceKind::L1Calldata), u64::MAX);
    let d = m.saturating_decrement(ResourceKind::L1Calldata, 4);
    assert_eq!(d.get(ResourceKind::L1Calldata), 5);
    assert_eq!(d.single_gas(), 5);
    let d = m.saturating_decrement(ResourceKind::L1Calldata, 100);
    assert_eq!(d.get(ResourceKind::L1Calldata), 0);
    assert_eq!(d.single_gas(), 0);
    let mut acc = MultiGas::zero();
    acc.saturating_increment_into(ResourceKind::Computation, 2);
    acc.saturating_increment_into(ResourceKind::Computation, 3);
    assert_eq!(acc.get(ResourceKind::Computation), 5);
}

#[test]
fn recompute_total_sums_the_kinds() {
    let mut m = MultiGas::computation(4).saturating_add(&MultiGas::l1_calldata(6));
    let overflow = m.recompute_total();
    assert!(!overflow);
    assert_eq!(m.single_gas(), 10);
    let mut big = MultiGas::computation(u64::MAX).saturating_add(&MultiGas::l1_calldata(6));
    assert!(big.recompute_total());
    assert_eq!(big.single_gas(), u64::MAX);
}

#[test]
fn scalar_saturating_ops() {
    assert_eq!(saturating_scalar_add(2, 3), (5, false));
    assert_eq!(saturating_scalar_add(u64::MAX, 1), (u64::MAX, true));
    assert_eq!(saturating_scalar_sub(5, 3), (2, false));
    assert_eq!(saturating_scalar_sub(3, 5), (0, true));
}

#[test]
fn resource_kind_ids() {
    assert!(check_resource_kind(0).is_err());
    assert_eq!(check_resource_kind(0).unwrap_err(), "invalid resource id: 0");
    assert_eq!(check_resource_kind(8).unwrap_err(), "invalid resource id: 8");
    assert_eq!(check_resource_kind(255).unwrap_err(), "invalid resource id: 255");
    assert_eq!(check_resource_kind(1).unwrap(), ResourceKind::Computation);
    assert_eq!(check_resource_kind(7).unwrap(), ResourceKind::WasmComputation);
    assert_eq!(ResourceKind::L1Calldata.as_index(), 5);
    assert_eq!(ResourceKind::COUNT, 8);
}

#[test]
fn resource_kind_names() {
    assert_eq!(ResourceKind::Unknown.to_string(), "Unknown");
    assert_eq!(ResourceKind::StorageGrowth.to_string(), "StorageGrowth");
    assert_eq!(ResourceKind::WasmComputation.to_string(), "WasmComputation");
}

#[test]
fn safe_sub_undoes_safe_add() {
    let a = MultiGas::computation(10).saturating_add(&MultiGas::l1_calldata(4)).with_refund(2);
    let b = MultiGas::computation(1).saturating_add(&MultiGas::storage_growth(9)).with_refund(1);
    let (s, o) = a.safe_add(&b);
    assert!(!o);
    let (d, u) = s.safe_sub(&b);
    assert!(!u);
    assert_eq!(d, a);
}
