//! The EVM state that ArbOS reads and writes: storage slots of accounts and
//! account balances, held in revm's in-memory database.
use vstd::prelude::*;

use revm::database::InMemoryDB;

use crate::word::{u256_max, Address, U256};

verus! {

#[verifier::external_type_specification]
#[verifier::external_body]
#[verifier::reject_recursive_types(ExtDB)]
pub struct ExCacheDB<ExtDB>(revm::database::CacheDB<ExtDB>);

#[verifier::external_type_specification]
#[verifier::external_body]
#[verifier::reject_recursive_types(E)]
pub struct ExEmptyDBTyped<E>(revm::database_interface::EmptyDBTyped<E>);

/// The storage slots that the database holds, keyed by (account bytes, slot
/// number), each with the value written there; every slot not in the map
/// reads as zero.
pub uninterp spec fn db_slots(db: InMemoryDB) -> Map<(Seq<u8>, int), int>;

/// The balances of the accounts that exist in the database, keyed by
/// account bytes; every account not in the map has balance zero.
pub uninterp spec fn db_balances(db: InMemoryDB) -> Map<Seq<u8>, int>;

/// The value that a storage slot reads as.
pub open spec fn slot_value(db: InMemoryDB, account: Seq<u8>, slot: int) -> int {
    if db_slots(db).contains_key((account, slot)) {
        db_slots(db)[(account, slot)]
    } else {
        0
    }
}

/// The balance of an account.
pub open spec fn balance_value(db: InMemoryDB, account: Seq<u8>) -> int {
    if db_balances(db).contains_key(account) {
        db_balances(db)[account]
    } else {
        0
    }
}

/// The balance of `account` in a map of balances (zero where it has none).
pub open spec fn balance_in(m: Map<Seq<u8>, int>, account: Seq<u8>) -> int {
    if m.contains_key(account) {
        m[account]
    } else {
        0
    }
}

/// The balances after `amount` moves from `from` to `to`: nothing changes
/// where the two are the same account or the amount is zero.
pub open spec fn moved(m: Map<Seq<u8>, int>, from: Seq<u8>, to: Seq<u8>, amount: int) -> Map<Seq<u8>, int> {
    if from == to || amount == 0 {
        m
    } else {
        m.insert(from, balance_in(m, from) - amount).insert(to, balance_in(m, to) + amount)
    }
}

/// Whether `db2` differs from `db1` only in the slot `slot` of `account`, which holds `v`.
pub open spec fn db_slot_written(db1: InMemoryDB, db2: InMemoryDB, account: Seq<u8>, slot: int, v: int) -> bool {
    &&& db_slots(db2) == db_slots(db1).insert((account, slot), v)
    &&& db_balances(db2) == db_balances(db1)
}

/// Law: a slot reads back the value written to it; every other slot, and
/// every balance, reads as before.
pub proof fn law_read_after_write(db1: InMemoryDB, db2: InMemoryDB, account: Seq<u8>, slot: int, v: int)
    requires
        db_slot_written(db1, db2, account, slot, v),
    ensures
        slot_value(db2, account, slot) == v,
        forall|a: Seq<u8>, s: int|
            (a, s) != (account, slot) ==> #[trigger] slot_value(db2, a, s) == slot_value(db1, a, s),
        forall|a: Seq<u8>| #[trigger] balance_value(db2, a) == balance_value(db1, a),
{
}

/// Reads a storage slot with `DatabaseRef::storage_ref` of revm's `CacheDB`
/// over the empty database: the cached value where the slot was written,
/// zero otherwise. Its error type is `Infallible`.
#[verifier::external_body]
pub(crate) fn read_storage(db: &InMemoryDB, account: Address, slot: U256) -> (r: U256)
    ensures
        r.value() == slot_value(*db, account.bytes@, slot.value()),
{
    let key = alloy_primitives::U256::from_limbs([slot.l0, slot.l1, slot.l2, slot.l3]);
    let v = revm::DatabaseRef::storage_ref(db, alloy_primitives::Address::new(account.bytes), key);
    let l = v.unwrap().into_limbs();
    U256 { l0: l[0], l1: l[1], l2: l[2], l3: l[3] }
}

/// Writes a storage slot with revm's `CacheDB::insert_account_storage`,
/// which loads the account into the cache (no balance appears for an
/// account that did not exist) and inserts the slot's value.
#[verifier::external_body]
pub(crate) fn write_storage(db: &mut InMemoryDB, account: Address, slot: U256, value: U256)
    ensures
        db_slot_written(*old(db), *final(db), account.bytes@, slot.value(), value.value()),
{
    let key = alloy_primitives::U256::from_limbs([slot.l0, slot.l1, slot.l2, slot.l3]);
    let v = alloy_primitives::U256::from_limbs([value.l0, value.l1, value.l2, value.l3]);
    db.insert_account_storage(alloy_primitives::Address::new(account.bytes), key, v).unwrap();
}

/// Reads an account's balance with `DatabaseRef::basic_ref` of revm's
/// `CacheDB`: the cached account's balance, zero for an account that does
/// not exist.
#[verifier::external_body]
pub(crate) fn read_balance(db: &InMemoryDB, account: Address) -> (r: U256)
    ensures
        r.value() == balance_value(*db, account.bytes@),
{
    let info = revm::DatabaseRef::basic_ref(db, alloy_primitives::Address::new(account.bytes));
    let l = info.unwrap().map(|i| i.balance).unwrap_or_default().into_limbs();
    U256 { l0: l[0], l1: l[1], l2: l[2], l3: l[3] }
}

/// Sets an account's balance: reads its account info with `basic_ref`
/// (default info for an account that does not exist), replaces the balance
/// and stores it back with `CacheDB::insert_account_info`, which leaves the
/// account's storage as it was and makes the account exist.
#[verifier::external_body]
pub(crate) fn write_balance(db: &mut InMemoryDB, account: Address, value: U256)
    ensures
        db_balances(*final(db)) == db_balances(*old(db)).insert(account.bytes@, value.value()),
        db_slots(*final(db)) == db_slots(*old(db)),
{
    let a = alloy_primitives::Address::new(account.bytes);
    let mut info = revm::DatabaseRef::basic_ref(db, a).unwrap().unwrap_or_default();
    info.balance = alloy_primitives::U256::from_limbs([value.l0, value.l1, value.l2, value.l3]);
    db.insert_account_info(a, info);
}

/// Why a balance transfer failed.
#[derive(Clone, Copy, Debug, PartialEq, Eq, Structural)]
pub enum TransferError {
    /// The sender holds less than the amount.
    OutOfFunds,
    /// The recipient's balance would exceed the largest word.
    OverflowPayment,
}

/// What moving `amount` from `from` to `to` gives, as `transfer` does it.
pub open spec fn transfer_result(db: InMemoryDB, from: Seq<u8>, to: Seq<u8>, amount: int) -> Result<(), TransferError> {
    let bf = balance_value(db, from);
    let bt = balance_value(db, to);
    if from == to {
        if amount > bf {
            Err(TransferError::OutOfFunds)
        } else {
            Ok(())
        }
    } else if amount == 0 {
        Ok(())
    } else if amount > bf {
        Err(TransferError::OutOfFunds)
    } else if bt + amount > u256_max() {
        Err(TransferError::OverflowPayment)
    } else {
        Ok(())
    }
}

/// The balances after moving `amount` from `from` to `to`, as `transfer`
/// leaves them: a recipient whose balance would overflow is not credited,
/// though the sender has been debited.
pub open spec fn transfer_balances(db: InMemoryDB, from: Seq<u8>, to: Seq<u8>, amount: int) -> Map<Seq<u8>, int> {
    let bf = balance_value(db, from);
    let bt = balance_value(db, to);
    if from == to || amount == 0 || amount > bf {
        db_balances(db)
    } else if bt + amount > u256_max() {
        db_balances(db).insert(from, bf - amount)
    } else {
        db_balances(db).insert(from, bf - amount).insert(to, bt + amount)
    }
}

/// Moves `amount` from `from` to `to`, as the EVM journal does: a transfer to
/// oneself only checks the balance, a zero amount does nothing, a sender
/// with too little fails, and a recipient whose balance would overflow
/// fails after the sender has been debited.
pub fn transfer(db: &mut InMemoryDB, from: Address, to: Address, amount: U256) -> (r: Result<(), TransferError>)
    ensures
        ({
            let bf = balance_value(*old(db), from.bytes@);
            let bt = balance_value(*old(db), to.bytes@);
            &&& db_slots(*final(db)) == db_slots(*old(db))
            &&& if from.bytes@ == to.bytes@ {
                &&& r == (if amount.value() > bf { Err(TransferError::OutOfFunds) } else { Ok(()) })
                &&& *final(db) == *old(db)
            } else if amount.value() == 0 {
                r is Ok && *final(db) == *old(db)
            } else if amount.value() > bf {
                r == Err::<(), TransferError>(TransferError::OutOfFunds) && *final(db) == *old(db)
            } else if bt + amount.value() > u256_max() {
                &&& r == Err::<(), TransferError>(TransferError::OverflowPayment)
                &&& db_balances(*final(db)) == db_balances(*old(db)).insert(from.bytes@, bf - amount.value())
            } else {
                &&& r is Ok
                &&& db_balances(*final(db)) == db_balances(*old(db)).insert(
                    from.bytes@,
                    bf - amount.value(),
                ).insert(to.bytes@, bt + amount.value())
            }
        }),
        r == transfer_result(*old(db), from.bytes@, to.bytes@, amount.value()),
        db_balances(*final(db)) == transfer_balances(*old(db), from.bytes@, to.bytes@, amount.value()),
{
    let from_balance = read_balance(db, from);
    if from.equals(&to) {
        if from_balance.lt(&amount) {
            return Err(TransferError::OutOfFunds);
        }
        return Ok(());
    }
    if amount.is_zero() {
        return Ok(());
    }
    if from_balance.lt(&amount) {
        return Err(TransferError::OutOfFunds);
    }
    let new_from = crate::word::u256_saturating_sub(from_balance, amount);
    write_balance(db, from, new_from);
    let to_balance = read_balance(db, to);
    let room = crate::word::u256_saturating_sub(U256::max_value(), to_balance);
    if room.lt(&amount) {
        return Err(TransferError::OverflowPayment);
    }
    let new_to = crate::word::u256_saturating_add(to_balance, amount);
    write_balance(db, to, new_to);
    Ok(())
}

} // verus!
