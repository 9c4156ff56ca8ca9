# arb-arbos

ArbOS state accounting for an Arbitrum chain, written in Verus: every
function carries a contract, and Verus proves the code against it.

## Layout

- `src/multigas.rs` — multi-dimensional gas (`MultiGas`, `ResourceKind`).
- `src/burn.rs` — the `Burner` trait and the system burner.
- `src/word.rs` — 256-bit words and the arithmetic on them.
- `src/statedb.rs` — the EVM state (revm's `InMemoryDB`), modelled as a map
  of storage slots and a map of balances.
- `src/storage.rs` — storage spaces, slots and the storage-backed values.
- `src/address_set.rs`, `src/queue.rs`, `src/vector.rs` — structures kept in
  storage.
- `src/batch_poster.rs`, `src/l1pricing.rs`, `src/pricing_formulas.rs`,
  `src/poster_cost.rs` — the L1 pricing state, its batch posters table, the
  spending update at each ArbOS version and the L1 cost of a transaction.
- `src/l2pricing.rs` and `src/l2pricing/` — gas constraints and per-resource
  base fees.
- `src/arbsys.rs` — the ArbSys precompile: address aliasing, selectors and
  the dispatch.
- `app/lib.rs` — what stays outside the verified library: the revm context
  trait, the precompile's entry point over a revm context, and conversions.

## Model

Storage contracts speak of `db_slots` and `db_balances`, the maps that an
`InMemoryDB` holds. The keccak256 hash is named, not modelled; where a proof
needs two slots to differ, the contract states that their keys do not collide.
Laws that relate several functions are public proof functions named `law_*`.
