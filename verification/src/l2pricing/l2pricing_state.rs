//! The L2 pricing state: its storage space and the handles on its fields.
use vstd::prelude::*;

use crate::burn::Burner;
use crate::storage::{Storage, StorageBackedBigUint, StorageBackedUint64};
use crate::vector::SubStorageVector;

verus! {

/// The L2 pricing state kept in a storage space.
pub struct L2PricingState<B: Burner> {
    pub storage: Storage<B>,
    pub speed_limit_per_second: StorageBackedUint64<B>,
    pub per_block_gas_limit: StorageBackedUint64<B>,
    pub base_fee_wei: StorageBackedBigUint<B>,
    pub min_base_fee_wei: StorageBackedBigUint<B>,
    pub gas_backlog: StorageBackedUint64<B>,
    pub pricing_inertia: StorageBackedUint64<B>,
    pub backlog_tolerance: StorageBackedUint64<B>,
    pub per_tx_gas_limit: StorageBackedUint64<B>,
    pub gas_constraints: SubStorageVector<B>,
    pub multi_gas_constraints: SubStorageVector<B>,
    pub arbos_version: u64,
}

} // verus!
