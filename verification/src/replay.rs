//! What a replayed transaction did to an account, as an upstream node tells it.

use crate::account_diff::{AccountStateEntry, AccountStateEntryView};
use crate::order::keys_in_order;
use crate::types::{StorageAddr, StorageVal, U256};
use std::collections::BTreeMap;
use vstd::prelude::*;

verus! {

/// What a transaction did to one value.
pub enum Change<T> {
    /// It left the value as it was.
    Same,
    /// It gave the value this one in place of another.
    Altered(T),
    /// It gave the value this one in place of none.
    Born(T),
    /// It took the value away.
    Died,
}

/// The value after the transaction, where that has changed and there is one.
pub open spec fn new_value(change: Change<U256>) -> Option<U256> {
    match change {
        Change::Altered(value) => Some(value),
        Change::Born(value) => Some(value),
        _ => None,
    }
}

/// The value of a slot after the transaction, where that has changed: a slot whose value was taken
/// away holds zero.
pub open spec fn new_slot_value(change: Change<U256>) -> Option<StorageVal> {
    match change {
        Change::Died => Some((0, 0)),
        _ => new_value(change),
    }
}

/// The slots that have changed, with their values after the transaction.
pub open spec fn changed_slots(storage: Map<StorageAddr, Change<U256>>) -> Map<
    StorageAddr,
    StorageVal,
> {
    Map::new(
        |slot: StorageAddr| storage.contains_key(slot) && new_slot_value(storage[slot]) is Some,
        |slot: StorageAddr| new_slot_value(storage[slot])->0,
    )
}

/// What is reported of an account: the values after the transaction of all parts that have changed.
/// Where nothing is told of any slot, nothing is reported on storage.
pub open spec fn reported_changes(
    balance: Change<U256>,
    nonce: Change<U256>,
    code_hash: Change<U256>,
    storage: Map<StorageAddr, Change<U256>>,
) -> AccountStateEntryView {
    AccountStateEntryView {
        balance: new_value(balance),
        nonce: new_value(nonce),
        code_hash: new_value(code_hash),
        storage: if storage.is_empty() {
            None
        } else {
            Some(changed_slots(storage))
        },
    }
}

fn get_new_value(change: &Change<U256>) -> (value: Option<U256>)
    ensures
        value == new_value(*change),
{
    match change {
        Change::Altered(value) => Some(*value),
        Change::Born(value) => Some(*value),
        _ => None,
    }
}

fn get_new_slot_value(change: &Change<U256>) -> (value: Option<StorageVal>)
    ensures
        value == new_slot_value(*change),
{
    match change {
        Change::Died => Some((0, 0)),
        _ => get_new_value(change),
    }
}

/// What is reported of an account, from what the transaction did to each part of it.
pub fn account_state_entry(
    balance: &Change<U256>,
    nonce: &Change<U256>,
    code_hash: &Change<U256>,
    storage: &BTreeMap<StorageAddr, Change<U256>>,
) -> (entry: AccountStateEntry)
    ensures
        entry@ == reported_changes(*balance, *nonce, *code_hash, storage@),
{
    let mut changed: BTreeMap<StorageAddr, StorageVal> = BTreeMap::new();
    let slots = keys_in_order(storage);
    for i in 0..slots.len()
        invariant
            slots@.to_set() == storage@.dom(),
            changed@ == Map::new(
                |slot: StorageAddr|
                    new_slot_value(storage@[slot]) is Some && exists|j: int|
                        0 <= j < i && slots@[j] == slot,
                |slot: StorageAddr| new_slot_value(storage@[slot])->0,
            ),
    {
        assert(slots@.to_set().contains(slots@[i as int]));
        match get_new_slot_value(storage.get(&slots[i]).unwrap()) {
            Some(value) => {
                changed.insert(slots[i], value);
            },
            None => {},
        }
        assert(changed@ =~= Map::new(
            |slot: StorageAddr|
                new_slot_value(storage@[slot]) is Some && exists|j: int|
                    0 <= j < i + 1 && slots@[j] == slot,
            |slot: StorageAddr| new_slot_value(storage@[slot])->0,
        ));
    }
    proof {
        assert forall|slot: StorageAddr| storage@.contains_key(slot) == exists|j: int|
            0 <= j < slots@.len() && slots@[j] == slot by {
            assert(slots@.to_set().contains(slot) == storage@.contains_key(slot));
        }
        assert(changed@ =~= changed_slots(storage@));
    }
    AccountStateEntry {
        balance: get_new_value(balance),
        nonce: get_new_value(nonce),
        code_hash: get_new_value(code_hash),
        storage: if storage.is_empty() {
            None
        } else {
            Some(changed)
        },
    }
}

} // verus!
