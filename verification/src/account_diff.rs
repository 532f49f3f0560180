//! Accounts as an upstream node reports them after a transaction, held against the local state.

use crate::order::{in_order, keys_in_order, lemma_in_order, lemma_words_are_ordered};
use crate::types::{copy_items, words_equal, CodeHash, StorageAddr, StorageVal, U256};
use std::collections::BTreeMap;
use vstd::prelude::*;

verus! {

/// What an upstream node reports of one account after one transaction: the new value of each part
/// that the transaction changed.
pub struct AccountStateEntry {
    pub balance: Option<U256>,
    pub nonce: Option<U256>,
    pub code_hash: Option<CodeHash>,
    pub storage: Option<BTreeMap<StorageAddr, StorageVal>>,
}

/// One account of the local state, with the values of the storage slots that are asked about.
pub struct AccountRlpWithStorageTrie {
    pub balance: U256,
    pub nonce: U256,
    pub code_hash: CodeHash,
    pub storage_trie_delta: BTreeMap<StorageAddr, StorageVal>,
}

/// Two values that differ.
#[derive(Clone, Copy, Debug)]
pub struct ValueDiff {
    pub upstream: U256,
    pub local: U256,
}

/// The parts of an account on which the upstream node and the local state differ.
#[derive(Debug)]
pub struct AccountStateEntryDiff {
    pub balance: Option<ValueDiff>,
    pub nonce: Option<ValueDiff>,
    pub code_hash: Option<ValueDiff>,
    /// The slots that differ, in ascending order.
    pub storage: Vec<(StorageAddr, ValueDiff)>,
}

/// An `AccountStateEntry` as a mathematical value.
#[verifier::ext_equal]
pub struct AccountStateEntryView {
    pub balance: Option<U256>,
    pub nonce: Option<U256>,
    pub code_hash: Option<CodeHash>,
    pub storage: Option<Map<StorageAddr, StorageVal>>,
}

impl View for AccountStateEntry {
    type V = AccountStateEntryView;

    open spec fn view(&self) -> AccountStateEntryView {
        AccountStateEntryView {
            balance: self.balance,
            nonce: self.nonce,
            code_hash: self.code_hash,
            storage: match self.storage {
                Some(storage) => Some(storage@),
                None => None,
            },
        }
    }
}

/// An `AccountRlpWithStorageTrie` as a mathematical value.
#[verifier::ext_equal]
pub struct LocalAccountView {
    pub balance: U256,
    pub nonce: U256,
    pub code_hash: CodeHash,
    pub storage_trie_delta: Map<StorageAddr, StorageVal>,
}

impl View for AccountRlpWithStorageTrie {
    type V = LocalAccountView;

    open spec fn view(&self) -> LocalAccountView {
        LocalAccountView {
            balance: self.balance,
            nonce: self.nonce,
            code_hash: self.code_hash,
            storage_trie_delta: self.storage_trie_delta@,
        }
    }
}

/// An `AccountStateEntryDiff` as a mathematical value.
#[verifier::ext_equal]
pub struct AccountStateEntryDiffView {
    pub balance: Option<ValueDiff>,
    pub nonce: Option<ValueDiff>,
    pub code_hash: Option<ValueDiff>,
    pub storage: Seq<(StorageAddr, ValueDiff)>,
}

impl View for AccountStateEntryDiff {
    type V = AccountStateEntryDiffView;

    open spec fn view(&self) -> AccountStateEntryDiffView {
        AccountStateEntryDiffView {
            balance: self.balance,
            nonce: self.nonce,
            code_hash: self.code_hash,
            storage: self.storage@,
        }
    }
}

impl LocalAccountView {
    /// The local value of a slot; a slot without a value holds zero.
    pub open spec fn slot(self, slot: StorageAddr) -> StorageVal {
        if self.storage_trie_delta.contains_key(slot) {
            self.storage_trie_delta[slot]
        } else {
            (0, 0)
        }
    }
}

/// The two values, where upstream reports one and it differs from the local one.
pub open spec fn value_diff(upstream: Option<U256>, local: U256) -> Option<ValueDiff> {
    match upstream {
        Some(upstream) => if upstream == local {
            None
        } else {
            Some(ValueDiff { upstream, local })
        },
        None => None,
    }
}

impl AccountStateEntryView {
    /// The slots that upstream reports as changed, in ascending order.
    pub open spec fn changed_slots(self) -> Seq<StorageAddr> {
        match self.storage {
            Some(storage) => in_order(storage.dom()),
            None => Seq::empty(),
        }
    }

    /// Whether the local account has every value that upstream reports.
    pub open spec fn agrees_with(self, local: LocalAccountView) -> bool {
        &&& self.balance matches Some(balance) ==> balance == local.balance
        &&& self.nonce matches Some(nonce) ==> nonce == local.nonce
        &&& self.code_hash matches Some(code_hash) ==> code_hash == local.code_hash
        &&& self.storage matches Some(storage) ==> forall|slot: StorageAddr| #[trigger]
            storage.contains_key(slot) ==> storage[slot] == local.slot(slot)
    }

    /// What is told of one slot: the two values, where they differ.
    pub open spec fn slot_diff(
        self,
        local: LocalAccountView,
        slot: StorageAddr,
    ) -> Option<ValueDiff> {
        value_diff(Some(self.storage->0[slot]), local.slot(slot))
    }

    /// What is told of the slots `slots`, in their order.
    pub open spec fn slot_diffs(self, local: LocalAccountView, slots: Seq<StorageAddr>) -> Seq<
        (StorageAddr, ValueDiff),
    >
        decreases slots.len(),
    {
        if slots.len() == 0 {
            Seq::empty()
        } else {
            let before = self.slot_diffs(local, slots.drop_last());
            match self.slot_diff(local, slots.last()) {
                Some(diff) => before.push((slots.last(), diff)),
                None => before,
            }
        }
    }

    /// The parts on which upstream and the local account differ.
    pub open spec fn diff(self, local: LocalAccountView) -> AccountStateEntryDiffView {
        AccountStateEntryDiffView {
            balance: value_diff(self.balance, local.balance),
            nonce: value_diff(self.nonce, local.nonce),
            code_hash: value_diff(self.code_hash, local.code_hash),
            storage: self.slot_diffs(local, self.changed_slots()),
        }
    }
}

impl AccountStateEntryDiffView {
    /// Whether anything differs.
    pub open spec fn values_have_changed(self) -> bool {
        ||| self.balance is Some
        ||| self.nonce is Some
        ||| self.code_hash is Some
        ||| self.storage.len() > 0
    }
}

fn diff_values(upstream: Option<U256>, local: &U256) -> (diff: Option<ValueDiff>)
    ensures
        diff == value_diff(upstream, *local),
{
    match upstream {
        Some(upstream) => if words_equal(&upstream, local) {
            None
        } else {
            Some(ValueDiff { upstream, local: *local })
        },
        None => None,
    }
}

impl AccountRlpWithStorageTrie {
    /// The local value of a slot; a slot without a value holds zero.
    pub fn slot(&self, slot: &StorageAddr) -> (value: StorageVal)
        ensures
            value == self@.slot(*slot),
    {
        match self.storage_trie_delta.get(slot) {
            Some(value) => *value,
            None => (0, 0),
        }
    }
}

impl AccountStateEntry {
    /// The slots that upstream reports as changed, in ascending order; `None` where it reports on no
    /// storage at all.
    pub fn get_storage_addrs_changed(&self) -> (slots: Option<Vec<StorageAddr>>)
        ensures
            slots is Some == self@.storage is Some,
            slots matches Some(slots) ==> slots@ == self@.changed_slots(),
    {
        match &self.storage {
            Some(storage) => Some(keys_in_order(storage)),
            None => None,
        }
    }

    /// The parts on which upstream and the local account differ.
    pub fn create_diff_from_actual_data(&self, local: &AccountRlpWithStorageTrie) -> (diff:
        AccountStateEntryDiff)
        ensures
            diff@ == self@.diff(local@),
    {
        let mut storage: Vec<(StorageAddr, ValueDiff)> = Vec::new();
        match &self.storage {
            Some(reported) => {
                let slots = keys_in_order(reported);
                let ghost upstream = self@;
                for i in 0..slots.len()
                    invariant
                        upstream == self@,
                        upstream.storage == Some(reported@),
                        slots@.to_set() == reported@.dom(),
                        storage@ == upstream.slot_diffs(local@, slots@.take(i as int)),
                {
                    assert(slots@.take(i + 1).drop_last() == slots@.take(i as int));
                    let slot = slots[i];
                    assert(slots@.contains(slot));
                    assert(slots@.to_set().contains(slot));
                    let value = *reported.get(&slot).unwrap();
                    match diff_values(Some(value), &local.slot(&slot)) {
                        Some(diff) => {
                            storage.push((slot, diff));
                        },
                        None => {},
                    }
                }
                assert(slots@.take(slots@.len() as int) == slots@);
            },
            None => {},
        }
        let diff = AccountStateEntryDiff {
            balance: diff_values(self.balance, &local.balance),
            nonce: diff_values(self.nonce, &local.nonce),
            code_hash: diff_values(self.code_hash, &local.code_hash),
            storage,
        };
        assert(diff@ =~= self@.diff(local@));
        diff
    }
}

impl Clone for AccountStateEntryDiff {
    fn clone(&self) -> (copy: Self)
        ensures
            copy@ == self@,
    {
        AccountStateEntryDiff {
            balance: self.balance,
            nonce: self.nonce,
            code_hash: self.code_hash,
            storage: copy_items(&self.storage),
        }
    }
}

impl AccountStateEntryDiff {
    /// Whether anything differs.
    pub fn values_have_changed(&self) -> (changed: bool)
        ensures
            changed == self@.values_have_changed(),
    {
        self.balance.is_some() || self.nonce.is_some() || self.code_hash.is_some()
            || self.storage.len() > 0
    }
}

proof fn lemma_slot_diffs(
    upstream: AccountStateEntryView,
    local: LocalAccountView,
    slots: Seq<StorageAddr>,
)
    ensures
        upstream.slot_diffs(local, slots).len() > 0 <==> exists|i: int|
            0 <= i < slots.len() && upstream.slot_diff(local, #[trigger] slots[i]) is Some,
    decreases slots.len(),
{
    if slots.len() > 0 {
        let rest = slots.drop_last();
        lemma_slot_diffs(upstream, local, rest);
        if upstream.slot_diffs(local, rest).len() > 0 {
            let i = choose|i: int|
                0 <= i < rest.len() && upstream.slot_diff(local, #[trigger] rest[i]) is Some;
            assert(upstream.slot_diff(local, slots[i]) is Some);
        }
        if exists|i: int|
            0 <= i < slots.len() && upstream.slot_diff(local, #[trigger] slots[i]) is Some {
            let i = choose|i: int|
                0 <= i < slots.len() && upstream.slot_diff(local, #[trigger] slots[i]) is Some;
            if i < rest.len() {
                assert(upstream.slot_diff(local, rest[i]) is Some);
            }
        }
    }
}

/// A comparison with the local account shows a difference exactly where the local account lacks a
/// value that upstream reports.
pub proof fn law_diff_shows_every_disagreement(upstream: AccountStateEntry, local: LocalAccountView)
    ensures
        upstream@.diff(local).values_have_changed() <==> !upstream@.agrees_with(local),
{
    let view = upstream@;
    let slots = view.changed_slots();
    lemma_slot_diffs(view, local, slots);
    if let Some(reported) = upstream.storage {
        lemma_words_are_ordered();
        lemma_in_order(reported@.dom());
        assert forall|slot: StorageAddr| #[trigger] reported@.contains_key(slot) implies exists|
            i: int,
        | 0 <= i < slots.len() && slots[i] == slot by {
            assert(slots.to_set().contains(slot));
        }
        assert forall|i: int| 0 <= i < slots.len() implies reported@.contains_key(
            #[trigger] slots[i],
        ) by {
            assert(slots.to_set().contains(slots[i]));
        }
    }
}

} // verus!
