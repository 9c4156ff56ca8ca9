//! L2 pricing: the gas constraints that drive the base fee, their multi-gas
//! variants and the per-resource base fees, each kept in a storage space.
pub mod gas_constraint;
pub mod multi_gas_constraint;
pub mod multi_gas_fees;
pub mod l2pricing_state;
