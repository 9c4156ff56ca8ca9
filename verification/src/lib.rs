//! ArbOS state accounting: multi-dimensional gas, storage-backed values and
//! structures (sets, queues, vectors), the L1 and L2 pricing state, and the
//! ArbSys precompile, with their contracts proved by Verus.
pub mod multigas;
pub mod burn;
pub mod word;
pub mod statedb;
pub mod storage;
pub mod address_set;
pub mod batch_poster;
pub mod pricing_formulas;
pub mod l1pricing;
pub mod poster_cost;
pub mod queue;
pub mod vector;
pub mod arbsys;
pub mod l2pricing;
