//! The checks of the tries after each transaction, and of what an upstream node tells of accounts.

use crate::account_diff::{
    law_diff_shows_every_disagreement, AccountRlpWithStorageTrie, AccountStateEntry,
    AccountStateEntryDiff, AccountStateEntryView, LocalAccountView, ValueDiff,
};
use crate::after_txn::{code_run_by, states_are_checkable, states_errors};
use crate::codec::{hashed_address, hashed_slot, rlp_hash_at, rlp_integer, rlp_integer_at};
use crate::errors::{views, TraceVerificationError, TraceVerificationErrorView};
use crate::final_accounts::{
    account_errors, final_account, final_account_errors, final_account_is_readable,
    final_accounts_are_readable, final_storage_root, LocalAccount,
};
use crate::laws::before::{lemma_code_error_is_among, lemma_storage_error_is_among};
use crate::order::{in_order, lemma_in_order, lemma_words_are_ordered};
use crate::prestate::{code_errors, storage_errors};
use crate::replay::{reported_changes, Change};
use crate::reverse_hash::{address_lookups, leaf_keys_are_hashes};
use crate::trace::{reaches_storage_of, storage_tries_accessed, ProcessedTxnInfo, TxnInfo};
use crate::trie::{
    accounts_of, found, holds_accounts, is_hidden, keys_fit, root_of, trie_view, TrieView,
};
use crate::txn_state::{
    account_in, first_mismatch_is_reported, is_compared, is_readable, is_readable_at,
    local_account, looked_at_before, mismatch_comes_before, mismatches_at, no_mismatch, readable_to_first_mismatch,
    slot_in, slot_values, slots_are_readable, PartialTrieState, TxnStateDiff,
};
use crate::types::{
    AccountRlp, Address, CodeHash, StorageAddr, StorageVal, TrieInitialOrFinal,
    TrieRootHash, TrieType, TxnIdx, EMPTY_CODE_HASH, EMPTY_TRIE_HASH, U256,
};
use eth_trie_utils::partial_trie::PartialTrie;
use vstd::prelude::*;

verus! {

/// The report on the states grows with each state by what is missing there: first the code that the
/// transaction with the same number runs, then the storage that the block reaches.
pub proof fn law_states_are_reported_one_after_another(
    states: Seq<PartialTrieState>,
    state: PartialTrieState,
    traces: Seq<ProcessedTxnInfo>,
    code_run: Set<CodeHash>,
    code_known: Set<CodeHash>,
    raw_traces: Seq<TxnInfo>,
)
    requires
        forall|code_hash: CodeHash| #[trigger]
            code_run.contains(code_hash) <==> states.len() < traces.len()
                && traces[states.len() as int].contract_code_accessed@.contains_key(code_hash),
    ensures
        states_errors(Seq::empty(), traces, code_known, raw_traces).len() == 0,
        states_errors(states.push(state), traces, code_known, raw_traces) == states_errors(
            states,
            traces,
            code_known,
            raw_traces,
        ) + code_errors(
            accounts_of(state.state),
            code_run,
            code_known,
            address_lookups(state.state, raw_traces),
        ) + storage_errors(
            accounts_of(state.state),
            storage_tries_accessed(traces),
            state.storage@.dom(),
            address_lookups(state.state, raw_traces),
        ),
{
    assert(states.push(state).drop_last() =~= states);
    assert(code_run_by(traces, states.len() as int) =~= code_run);
    assert(states_errors(states.push(state), traces, code_known, raw_traces) =~= states_errors(
        states,
        traces,
        code_known,
        raw_traces,
    ) + code_errors(
        accounts_of(state.state),
        code_run,
        code_known,
        address_lookups(state.state, raw_traces),
    ) + storage_errors(
        accounts_of(state.state),
        storage_tries_accessed(traces),
        state.storage@.dom(),
        address_lookups(state.state, raw_traces),
    ));
}

/// After each transaction, every account whose code hash is not that of empty code, is run by that
/// same transaction and is not known gets an error with its key and code hash.
pub proof fn law_missing_code_after_each_transaction(
    states: Seq<PartialTrieState>,
    traces: Seq<ProcessedTxnInfo>,
    code_known: Set<CodeHash>,
    raw_traces: Seq<TxnInfo>,
    t: int,
    i: int,
)
    requires
        0 <= t < states.len(),
        t < traces.len(),
        0 <= i < accounts_of(states[t].state).len(),
        accounts_of(states[t].state)[i].1.code_hash != EMPTY_CODE_HASH,
        traces[t].contract_code_accessed@.contains_key(
            accounts_of(states[t].state)[i].1.code_hash,
        ),
        !code_known.contains(accounts_of(states[t].state)[i].1.code_hash),
    ensures
        states_errors(states, traces, code_known, raw_traces).contains(
            TraceVerificationErrorView::MissingContractCodeForAccount(
                address_lookups(states[t].state, raw_traces)[accounts_of(states[t].state)[i].0],
                accounts_of(states[t].state)[i].0,
                accounts_of(states[t].state)[i].1.code_hash,
            ),
        ),
    decreases states.len(),
{
    let accounts = accounts_of(states[t].state);
    let addrs = address_lookups(states[t].state, raw_traces);
    let err = TraceVerificationErrorView::MissingContractCodeForAccount(
        addrs[accounts[i].0],
        accounts[i].0,
        accounts[i].1.code_hash,
    );
    let rest = states.drop_last();
    let before = states_errors(rest, traces, code_known, raw_traces);
    let all = states_errors(states, traces, code_known, raw_traces);
    if t < rest.len() {
        law_missing_code_after_each_transaction(rest, traces, code_known, raw_traces, t, i);
        let e = choose|e: int| 0 <= e < before.len() && before[e] == err;
        assert(all[e] == err);
    } else {
        let run = code_run_by(traces, t);
        lemma_code_error_is_among(accounts, run, code_known, addrs, i);
        let errs = code_errors(accounts, run, code_known, addrs);
        let e = choose|e: int| 0 <= e < errs.len() && errs[e] == err;
        assert(all[before.len() + e] == err);
    }
}

/// After each transaction, every account whose storage root is not that of an empty trie, whose
/// storage some transaction reaches and that has no storage trie gets an error with its key and
/// storage root.
pub proof fn law_missing_storage_after_each_transaction(
    states: Seq<PartialTrieState>,
    traces: Seq<ProcessedTxnInfo>,
    code_known: Set<CodeHash>,
    raw_traces: Seq<TxnInfo>,
    t: int,
    i: int,
    s: int,
    n: int,
)
    requires
        0 <= t < states.len(),
        0 <= i < accounts_of(states[t].state).len(),
        0 <= s < traces.len(),
        0 <= n < traces[s].nodes_used_by_txn.storage_accesses@.len(),
        accounts_of(states[t].state)[i].1.storage_root != EMPTY_TRIE_HASH,
        traces[s].nodes_used_by_txn.storage_accesses@[n].0.1 == accounts_of(
            states[t].state,
        )[i].0.1,
        !states[t].storage@.contains_key(accounts_of(states[t].state)[i].0.1),
    ensures
        states_errors(states, traces, code_known, raw_traces).contains(
            TraceVerificationErrorView::MissingStorageTrieForAccount(
                address_lookups(states[t].state, raw_traces)[accounts_of(states[t].state)[i].0],
                accounts_of(states[t].state)[i].0,
                accounts_of(states[t].state)[i].1.storage_root,
            ),
        ),
    decreases states.len(),
{
    let accounts = accounts_of(states[t].state);
    let addrs = address_lookups(states[t].state, raw_traces);
    let err = TraceVerificationErrorView::MissingStorageTrieForAccount(
        addrs[accounts[i].0],
        accounts[i].0,
        accounts[i].1.storage_root,
    );
    let rest = states.drop_last();
    let before = states_errors(rest, traces, code_known, raw_traces);
    let all = states_errors(states, traces, code_known, raw_traces);
    if t < rest.len() {
        law_missing_storage_after_each_transaction(
            rest,
            traces,
            code_known,
            raw_traces,
            t,
            i,
            s,
            n,
        );
        let e = choose|e: int| 0 <= e < before.len() && before[e] == err;
        assert(all[e] == err);
    } else {
        let run = code_run_by(traces, t);
        let reached = storage_tries_accessed(traces);
        let supplied = states[t].storage@.dom();
        assert(reaches_storage_of(traces[s], accounts[i].0.1));
        lemma_storage_error_is_among(accounts, reached, supplied, addrs, i);
        let code = code_errors(accounts, run, code_known, addrs);
        let errs = storage_errors(accounts, reached, supplied, addrs);
        let e = choose|e: int| 0 <= e < errs.len() && errs[e] == err;
        assert((code + errs)[code.len() + e] == err);
        assert(all[before.len() + code.len() + e] == err);
    }
}

/// The states can be checked exactly where each holds accounts, under keys that are hashes.
pub proof fn law_when_states_can_be_checked(states: Seq<PartialTrieState>)
    ensures
        states_are_checkable(states) <==> forall|t: int|
            0 <= t < states.len() ==> holds_accounts((#[trigger] states[t]).state)
                && leaf_keys_are_hashes(states[t].state),
{
}

/// An account is read at the hash of its address: nonce, balance, storage root and code hash, in this
/// order. There is none where nothing is found there or one of the four cannot be read.
pub proof fn law_what_is_read_of_an_account(state: TrieView, addr: Address, account: AccountRlp)
    ensures
        account_in(state, addr) == Some(account) <==> {
            &&& found(state, hashed_address(addr)) matches Some(bytes)
            &&& rlp_integer_at(bytes, 0) == Some(account.nonce)
            &&& rlp_integer_at(bytes, 1) == Some(account.balance)
            &&& rlp_hash_at(bytes, 2) == Some(account.storage_root)
            &&& rlp_hash_at(bytes, 3) == Some(account.code_hash)
        },
        account_in(state, addr) is None <==> match found(state, hashed_address(addr)) {
            None => true,
            Some(bytes) => {
                ||| rlp_integer_at(bytes, 0) is None
                ||| rlp_integer_at(bytes, 1) is None
                ||| rlp_hash_at(bytes, 2) is None
                ||| rlp_hash_at(bytes, 3) is None
            },
        },
{
}

/// A slot is read at its hash; where nothing is found there it holds zero.
pub proof fn law_what_is_read_of_a_slot(storage: TrieView, slot: StorageAddr)
    ensures
        found(storage, hashed_slot(slot)) is None ==> slot_in(storage, slot) == Some(
            (0u128, 0u128),
        ),
        found(storage, hashed_slot(slot)) matches Some(bytes) ==> slot_in(storage, slot)
            == rlp_integer(bytes),
{
}

proof fn lemma_reported_slots(entry: AccountStateEntry, slot: StorageAddr)
    ensures
        entry@.changed_slots().contains(slot) <==> entry.storage is Some
            && entry.storage->0@.contains_key(slot),
{
    if let Some(reported) = entry.storage {
        lemma_words_are_ordered();
        lemma_in_order(reported@.dom());
        assert(in_order(reported@.dom()).to_set().contains(slot) == reported@.contains_key(slot));
    }
}

/// The slots that are asked about are those that upstream reports on, in ascending order.
pub proof fn law_slots_asked_about(entry: AccountStateEntry)
    ensures
        entry.storage is None ==> entry@.changed_slots().len() == 0,
        entry.storage matches Some(reported) ==> entry@.changed_slots() == in_order(
            reported@.dom(),
        ),
        entry.storage is Some <==> entry@.storage is Some,
{
}

/// The local account has the balance, the nonce and the code hash of the account in the state trie,
/// each in its place, and of exactly the slots that upstream reports on the values in the account's
/// storage trie.
pub proof fn law_local_account_is_the_one_in_the_tries(
    local: PartialTrieState,
    addr: Address,
    entry: AccountStateEntry,
    account: AccountRlpWithStorageTrie,
)
    requires
        account@ == local_account(local, addr, entry@),
        is_readable(local, addr, entry@),
    ensures
        account_in(trie_view(local.state), addr) matches Some(held) && {
            &&& account.balance == held.balance
            &&& account.nonce == held.nonce
            &&& account.code_hash == held.code_hash
        },
        forall|slot: StorageAddr| #[trigger]
            account.storage_trie_delta@.contains_key(slot) <==> entry.storage is Some
                && entry.storage->0@.contains_key(slot),
        forall|slot: StorageAddr| #[trigger]
            account.storage_trie_delta@.contains_key(slot) ==> slot_in(
                trie_view(local.storage@[hashed_address(addr)]),
                slot,
            ) == Some(account.storage_trie_delta@[slot]),
{
    let slots = entry@.changed_slots();
    assert(account.storage_trie_delta@ == local_account(local, addr, entry@).storage_trie_delta);
    assert forall|slot: StorageAddr| #[trigger] account.storage_trie_delta@.contains_key(slot) <==> (
    entry.storage is Some && entry.storage->0@.contains_key(slot)) by {
        lemma_reported_slots(entry, slot);
    }
    assert forall|slot: StorageAddr| #[trigger]
        account.storage_trie_delta@.contains_key(slot) implies slot_in(
        trie_view(local.storage@[hashed_address(addr)]),
        slot,
    ) == Some(account.storage_trie_delta@[slot]) by {
        let i = choose|i: int| 0 <= i < slots.len() && slots[i] == slot;
        assert(slot_in(trie_view(local.storage@[hashed_address(addr)]), slots[i]) is Some);
    }
}

/// An account can be read exactly where the keys of the state trie fit, the account is there and so is
/// its storage trie, and, where upstream reports on slots, the keys of that trie fit and each of these
/// slots can be read.
pub proof fn law_when_an_account_can_be_read(
    local: PartialTrieState,
    addr: Address,
    entry: AccountStateEntry,
)
    ensures
        is_readable(local, addr, entry@) <==> {
            &&& keys_fit(local.state)
            &&& account_in(trie_view(local.state), addr) is Some
            &&& local.storage@.contains_key(hashed_address(addr))
            &&& entry.storage matches Some(reported) ==> forall|slot: StorageAddr| #[trigger]
                reported@.contains_key(slot) ==> keys_fit(local.storage@[hashed_address(addr)])
                    && slot_in(trie_view(local.storage@[hashed_address(addr)]), slot) is Some
        },
{
    let trie = local.storage@[hashed_address(addr)];
    let slots = entry@.changed_slots();
    if let Some(reported) = entry.storage {
        if slots_are_readable(trie, slots) {
            assert forall|slot: StorageAddr| #[trigger] reported@.contains_key(
                slot,
            ) implies keys_fit(trie) && slot_in(trie_view(trie), slot) is Some by {
                lemma_reported_slots(entry, slot);
                let i = choose|i: int| 0 <= i < slots.len() && slots[i] == slot;
                assert(keys_fit(trie) && slot_in(trie_view(trie), slots[i]) is Some);
            }
        }
        if forall|slot: StorageAddr| #[trigger]
            reported@.contains_key(slot) ==> keys_fit(trie) && slot_in(trie_view(trie), slot) is Some {
            assert forall|i: int| 0 <= i < slots.len() implies keys_fit(trie) && slot_in(
                trie_view(trie),
                #[trigger] slots[i],
            ) is Some by {
                lemma_reported_slots(entry, slots[i]);
                assert(slots.contains(slots[i]));
                assert(reported@.contains_key(slots[i]));
            }
        }
    }
}

/// Slots can be read exactly where there are none, or the keys of the trie fit and each slot has a
/// value; their values are those in the trie.
pub proof fn law_when_slots_can_be_read(
    trie: PartialTrie,
    slots: Seq<StorageAddr>,
    values: Map<StorageAddr, StorageVal>,
)
    requires
        values == slot_values(trie_view(trie), slots),
    ensures
        slots_are_readable(trie, slots) <==> slots.len() == 0 || (keys_fit(trie) && forall|i: int|
            0 <= i < slots.len() ==> slot_in(trie_view(trie), #[trigger] slots[i]) is Some),
        slots_are_readable(trie, slots) ==> forall|i: int|
            0 <= i < slots.len() ==> values.contains_key(#[trigger] slots[i]) && Some(
                values[slots[i]],
            ) == slot_in(trie_view(trie), slots[i]),
        forall|slot: StorageAddr| #[trigger] values.contains_key(slot) ==> slots.contains(slot),
{
    if slots_are_readable(trie, slots) && slots.len() > 0 {
        assert(keys_fit(trie) && slot_in(trie_view(trie), slots[0]) is Some);
    }
    if slots_are_readable(trie, slots) {
        assert forall|i: int| 0 <= i < slots.len() implies values.contains_key(#[trigger] slots[i])
            && Some(values[slots[i]]) == slot_in(trie_view(trie), slots[i]) by {
            assert(slots.contains(slots[i]));
        }
    }
}

/// Whether the account in the tries has every value that upstream reports of it.
pub open spec fn has_what_is_reported(
    local: PartialTrieState,
    addr: Address,
    entry: AccountStateEntry,
) -> bool {
    let held = account_in(trie_view(local.state), addr)->0;
    let storage = trie_view(local.storage@[hashed_address(addr)]);
    &&& entry.balance matches Some(balance) ==> balance == held.balance
    &&& entry.nonce matches Some(nonce) ==> nonce == held.nonce
    &&& entry.code_hash matches Some(code_hash) ==> code_hash == held.code_hash
    &&& entry.storage matches Some(reported) ==> forall|slot: StorageAddr| #[trigger]
        reported@.contains_key(slot) ==> Some(reported@[slot]) == slot_in(storage, slot)
}

proof fn lemma_agreement(local: PartialTrieState, addr: Address, entry: AccountStateEntry)
    requires
        is_readable(local, addr, entry@),
    ensures
        entry@.diff(local_account(local, addr, entry@)).values_have_changed()
            <==> !has_what_is_reported(local, addr, entry),
{
    let account = local_account(local, addr, entry@);
    law_diff_shows_every_disagreement(entry, account);
    law_when_an_account_can_be_read(local, addr, entry);
    if let Some(reported) = entry.storage {
        assert forall|slot: StorageAddr| #[trigger]
            reported@.contains_key(slot) implies account.slot(slot) == slot_in(
            trie_view(local.storage@[hashed_address(addr)]),
            slot,
        )->0 by {
            lemma_reported_slots(entry, slot);
        }
        assert(entry@.storage == Some(reported@));
        if entry@.agrees_with(account) {
            assert forall|slot: StorageAddr| #[trigger] reported@.contains_key(slot) implies Some(
                reported@[slot],
            ) == slot_in(trie_view(local.storage@[hashed_address(addr)]), slot) by {
                assert(reported@[slot] == account.slot(slot));
            }
        }
        if has_what_is_reported(local, addr, entry) {
            assert forall|slot: StorageAddr| #[trigger] reported@.contains_key(
                slot,
            ) implies reported@[slot] == account.slot(slot) by {}
        }
    }
}

/// Nothing is reported exactly where, after each transaction, each account that upstream reports on
/// can be read, and each balance, nonce, code hash and slot that upstream reports equals the field of
/// that name, or the slot, of the account in the tries.
pub proof fn law_nothing_reported_means_equal_fields(
    txn_diffs: Seq<TxnStateDiff>,
    states: Seq<PartialTrieState>,
    before: Seq<TraceVerificationErrorView>,
    after: Seq<TraceVerificationErrorView>,
)
    requires
        readable_to_first_mismatch(txn_diffs, states),
        first_mismatch_is_reported(txn_diffs, states, before, after),
    ensures
        after == before <==> forall|t: int, addr: Address|
            0 <= t < txn_diffs.len() && t < states.len() && #[trigger] txn_diffs[t]@.contains_key(addr)
                ==> is_readable(states[t], addr, txn_diffs[t]@[addr]@) && has_what_is_reported(
                states[t],
                addr,
                txn_diffs[t]@[addr],
            ),
{
    if no_mismatch(txn_diffs, states) {
        assert forall|t: int, addr: Address|
            0 <= t < txn_diffs.len() && t < states.len() && #[trigger] txn_diffs[t]@.contains_key(
                addr,
            ) implies is_readable(states[t], addr, txn_diffs[t]@[addr]@) && has_what_is_reported(
            states[t],
            addr,
            txn_diffs[t]@[addr],
        ) by {
            assert(is_compared(txn_diffs, states, t, addr));
            assert(!mismatches_at(txn_diffs, states, t, addr));
            assert(is_readable_at(txn_diffs, states, t, addr));
            lemma_agreement(states[t], addr, txn_diffs[t]@[addr]);
        }
    } else {
        let (t, addr) = choose|t: int, addr: Address| #[trigger]
            mismatches_at(txn_diffs, states, t, addr);
        lemma_agreement(states[t], addr, txn_diffs[t]@[addr]);
        assert(txn_diffs[t]@.contains_key(addr));
        assert(after.len() != before.len());
    }
}

/// Whether the account at `other` after transaction `s` comes before that at `addr` after transaction
/// `t`: in an earlier transaction, or at a smaller address in the same one.
pub open spec fn comes_before(s: int, other: Address, t: int, addr: Address) -> bool {
    ||| s < t
    ||| s == t && other.0 < addr.0
    ||| s == t && other.0 == addr.0 && other.1 < addr.1
}

/// Whether the account at `addr` after transaction `t` is reported on, can be read, and lacks a value
/// that is reported.
pub open spec fn lacks_what_is_reported(
    txn_diffs: Seq<TxnStateDiff>,
    states: Seq<PartialTrieState>,
    t: int,
    addr: Address,
) -> bool {
    &&& 0 <= t < txn_diffs.len()
    &&& t < states.len()
    &&& txn_diffs[t]@.contains_key(addr)
    &&& is_readable(states[t], addr, txn_diffs[t]@[addr]@)
    &&& !has_what_is_reported(states[t], addr, txn_diffs[t]@[addr])
}

proof fn lemma_lacks(
    txn_diffs: Seq<TxnStateDiff>,
    states: Seq<PartialTrieState>,
    t: int,
    addr: Address,
)
    ensures
        mismatches_at(txn_diffs, states, t, addr) <==> lacks_what_is_reported(
            txn_diffs,
            states,
            t,
            addr,
        ),
{
    if is_readable(states[t], addr, txn_diffs[t]@[addr]@) {
        lemma_agreement(states[t], addr, txn_diffs[t]@[addr]);
    }
}

/// The one account that is reported lacks a value that upstream reports, and none that comes before it
/// does. The report tells, of the balance, the nonce and the code hash, the two values exactly where
/// they differ.
pub proof fn law_first_mismatch_is_told_in_full(
    txn_diffs: Seq<TxnStateDiff>,
    states: Seq<PartialTrieState>,
    before: Seq<TraceVerificationErrorView>,
    after: Seq<TraceVerificationErrorView>,
)
    requires
        first_mismatch_is_reported(txn_diffs, states, before, after),
        after != before,
    ensures
        after.len() == before.len() + 1,
        forall|i: int| 0 <= i < before.len() ==> #[trigger] after[i] == before[i],
        after.last() matches TraceVerificationErrorView::AccountStateMismatch(txn_idx, addr, diff) && {
            let t = txn_idx as int;
            let entry = txn_diffs[t]@[addr];
            let held = account_in(trie_view(states[t].state), addr)->0;
            &&& lacks_what_is_reported(txn_diffs, states, t, addr)
            &&& forall|s: int, other: Address|
                comes_before(s, other, t, addr) ==> !(#[trigger] lacks_what_is_reported(
                    txn_diffs,
                    states,
                    s,
                    other,
                ))
            &&& tells_both(entry.balance, held.balance, diff.balance)
            &&& tells_both(entry.nonce, held.nonce, diff.nonce)
            &&& tells_both(entry.code_hash, held.code_hash, diff.code_hash)
            &&& entry.storage is None ==> diff.storage.len() == 0
            &&& entry.storage matches Some(reported) ==> diff.storage == in_order(
                reported@.dom(),
            ).filter_map(
                |slot: StorageAddr|
                    if Some(reported@[slot]) == slot_in(
                        trie_view(states[t].storage@[hashed_address(addr)]),
                        slot,
                    ) {
                        None
                    } else {
                        Some(
                            (
                                slot,
                                ValueDiff {
                                    upstream: reported@[slot],
                                    local: slot_in(
                                        trie_view(states[t].storage@[hashed_address(addr)]),
                                        slot,
                                    )->0,
                                },
                            ),
                        )
                    },
            )
        },
{
    assert(!no_mismatch(txn_diffs, states));
    assert(after.drop_last() == before);
    assert forall|i: int| 0 <= i < before.len() implies #[trigger] after[i] == before[i] by {
        assert(after.drop_last()[i] == before[i]);
    }
    if let TraceVerificationErrorView::AccountStateMismatch(txn_idx, addr, diff) = after.last() {
        let t = txn_idx as int;
        lemma_lacks(txn_diffs, states, t, addr);
        assert forall|s: int, other: Address| comes_before(s, other, t, addr) implies !(
        #[trigger] lacks_what_is_reported(txn_diffs, states, s, other)) by {
            lemma_lacks(txn_diffs, states, s, other);
        }
        let entry = txn_diffs[t]@[addr];
        if let Some(reported) = entry.storage {
            let slots = in_order(reported@.dom());
            let view = trie_view(states[t].storage@[hashed_address(addr)]);
            let account = local_account(states[t], addr, entry@);
            law_when_an_account_can_be_read(states[t], addr, entry);
            assert forall|i: int| 0 <= i < slots.len() implies Some(
                account.slot(#[trigger] slots[i]),
            ) == slot_in(view, slots[i]) by {
                lemma_reported_slots(entry, slots[i]);
                assert(slots.contains(slots[i]));
                assert(reported@.contains_key(slots[i]));
            }
            lemma_slots_told(entry, account, reported@, view, slots);
        }
    }
}

proof fn lemma_slots_told(
    entry: AccountStateEntry,
    account: LocalAccountView,
    reported: Map<StorageAddr, StorageVal>,
    view: TrieView,
    slots: Seq<StorageAddr>,
)
    requires
        entry@.storage == Some(reported),
        forall|i: int|
            0 <= i < slots.len() ==> Some(account.slot(#[trigger] slots[i])) == slot_in(
                view,
                slots[i],
            ),
    ensures
        entry@.slot_diffs(account, slots) == slots.filter_map(
            |slot: StorageAddr|
                if Some(reported[slot]) == slot_in(view, slot) {
                    None
                } else {
                    Some((slot, ValueDiff { upstream: reported[slot], local: slot_in(view, slot)->0 }))
                },
        ),
    decreases slots.len(),
{
    if slots.len() > 0 {
        let rest = slots.drop_last();
        assert forall|i: int| 0 <= i < rest.len() implies Some(account.slot(#[trigger] rest[i]))
            == slot_in(view, rest[i]) by {
            assert(rest[i] == slots[i]);
        }
        lemma_slots_told(entry, account, reported, view, rest);
        assert(Some(account.slot(slots[slots.len() - 1])) == slot_in(view, slots[slots.len() - 1]));
    }
}

/// Everything up to the first mismatch can be read exactly where each account that upstream reports on
/// can be read or comes after one that lacks a value that is reported.
pub proof fn law_when_states_can_be_compared(
    txn_diffs: Seq<TxnStateDiff>,
    states: Seq<PartialTrieState>,
)
    ensures
        readable_to_first_mismatch(txn_diffs, states) <==> forall|t: int, addr: Address|
            0 <= t < txn_diffs.len() && t < states.len() && #[trigger] txn_diffs[t]@.contains_key(addr)
                && !is_readable(states[t], addr, txn_diffs[t]@[addr]@) ==> exists|
                s: int,
                other: Address,
            |
                comes_before(s, other, t, addr) && #[trigger] lacks_what_is_reported(
                    txn_diffs,
                    states,
                    s,
                    other,
                ),
{
    if readable_to_first_mismatch(txn_diffs, states) {
        assert forall|t: int, addr: Address|
            0 <= t < txn_diffs.len() && t < states.len() && #[trigger] txn_diffs[t]@.contains_key(addr)
                && !is_readable(states[t], addr, txn_diffs[t]@[addr]@) implies exists|
            s: int,
            other: Address,
        |
            comes_before(s, other, t, addr) && #[trigger] lacks_what_is_reported(
                txn_diffs,
                states,
                s,
                other,
            ) by {
            assert(is_compared(txn_diffs, states, t, addr));
            assert(mismatch_comes_before(txn_diffs, states, t, addr));
            let (s, other) = choose|s: int, other: Address|
                looked_at_before(s, other, t, addr) && #[trigger] mismatches_at(
                    txn_diffs,
                    states,
                    s,
                    other,
                );
            lemma_lacks(txn_diffs, states, s, other);
            assert(comes_before(s, other, t, addr));
        }
    }
    if forall|t: int, addr: Address|
        0 <= t < txn_diffs.len() && t < states.len() && #[trigger] txn_diffs[t]@.contains_key(addr)
            && !is_readable(states[t], addr, txn_diffs[t]@[addr]@) ==> exists|
            s: int,
            other: Address,
        |
            comes_before(s, other, t, addr) && #[trigger] lacks_what_is_reported(
                txn_diffs,
                states,
                s,
                other,
            ) {
        assert forall|t: int, addr: Address| #[trigger] is_compared(
            txn_diffs,
            states,
            t,
            addr,
        ) implies is_readable_at(txn_diffs, states, t, addr) || mismatch_comes_before(
            txn_diffs,
            states,
            t,
            addr,
        ) by {
            assert(txn_diffs[t]@.contains_key(addr));
            if !is_readable_at(txn_diffs, states, t, addr) {
                let (s, other) = choose|s: int, other: Address|
                    comes_before(s, other, t, addr) && #[trigger] lacks_what_is_reported(
                        txn_diffs,
                        states,
                        s,
                        other,
                    );
                lemma_lacks(txn_diffs, states, s, other);
                assert(mismatches_at(txn_diffs, states, s, other));
            }
        }
    }
}

/// Whether the two values are told, upstream's first, exactly where upstream reports one that differs.
pub open spec fn tells_both(
    upstream: Option<U256>,
    local: U256,
    told: Option<ValueDiff>,
) -> bool {
    match told {
        Some(values) => upstream == Some(values.upstream) && local == values.local
            && values.upstream != values.local,
        None => upstream is None || upstream == Some(local),
    }
}

proof fn lemma_slot_diffs_are_told(
    upstream: AccountStateEntryView,
    local: LocalAccountView,
    slots: Seq<StorageAddr>,
)
    ensures
        upstream.slot_diffs(local, slots) == slots.filter_map(
            |slot: StorageAddr|
                {
                    let ours = if local.storage_trie_delta.contains_key(slot) {
                        local.storage_trie_delta[slot]
                    } else {
                        (0u128, 0u128)
                    };
                    if upstream.storage->0[slot] == ours {
                        None
                    } else {
                        Some((slot, ValueDiff { upstream: upstream.storage->0[slot], local: ours }))
                    }
                },
        ),
    decreases slots.len(),
{
    if slots.len() > 0 {
        lemma_slot_diffs_are_told(upstream, local, slots.drop_last());
    }
}

/// A comparison tells of the balance, the nonce and the code hash both values where they differ, and
/// likewise of the slots that upstream reports on, in ascending order, a slot without a local value
/// holding zero.
pub proof fn law_comparison_tells_what_differs(
    upstream: AccountStateEntry,
    local: AccountRlpWithStorageTrie,
    diff: AccountStateEntryDiff,
)
    requires
        diff@ == upstream@.diff(local@),
    ensures
        tells_both(upstream.balance, local.balance, diff.balance),
        tells_both(upstream.nonce, local.nonce, diff.nonce),
        tells_both(upstream.code_hash, local.code_hash, diff.code_hash),
        upstream.storage is None ==> diff.storage@.len() == 0,
        upstream.storage matches Some(reported) ==> diff.storage@ == in_order(
            reported@.dom(),
        ).filter_map(
            |slot: StorageAddr|
                {
                    let ours = if local.storage_trie_delta@.contains_key(slot) {
                        local.storage_trie_delta@[slot]
                    } else {
                        (0u128, 0u128)
                    };
                    if reported@[slot] == ours {
                        None
                    } else {
                        Some((slot, ValueDiff { upstream: reported@[slot], local: ours }))
                    }
                },
        ),
        diff@.values_have_changed() <==> diff.balance is Some || diff.nonce is Some
            || diff.code_hash is Some || diff.storage@.len() > 0,
{
    assert(diff@.storage == diff.storage@);
    if let Some(reported) = upstream.storage {
        lemma_slot_diffs_are_told(upstream@, local@, in_order(reported@.dom()));
        let f = |slot: StorageAddr|
            {
                let ours = if local@.storage_trie_delta.contains_key(slot) {
                    local@.storage_trie_delta[slot]
                } else {
                    (0u128, 0u128)
                };
                if upstream@.storage->0[slot] == ours {
                    None
                } else {
                    Some((slot, ValueDiff { upstream: upstream@.storage->0[slot], local: ours }))
                }
            };
        let g = |slot: StorageAddr|
            {
                let ours = if local.storage_trie_delta@.contains_key(slot) {
                    local.storage_trie_delta@[slot]
                } else {
                    (0u128, 0u128)
                };
                if reported@[slot] == ours {
                    None
                } else {
                    Some((slot, ValueDiff { upstream: reported@[slot], local: ours }))
                }
            };
        assert(f =~= g);
    }
}

/// The value of a slot in a local account is the one that was read, and zero where none was.
pub proof fn law_slot_of_a_local_account(local: AccountRlpWithStorageTrie, slot: StorageAddr)
    ensures
        local.storage_trie_delta@.contains_key(slot) ==> local@.slot(slot)
            == local.storage_trie_delta@[slot],
        !local.storage_trie_delta@.contains_key(slot) ==> local@.slot(slot) == (0u128, 0u128),
{
}

/// What the state trie tells of an account after the block: the account read there; an account that
/// was never used where nothing is found; nothing where its part of the trie is not held.
pub proof fn law_account_after_the_block(state: TrieView, addr: Address)
    ensures
        final_account(state, addr) == match found(state, hashed_address(addr)) {
            Some(_) => match account_in(state, addr) {
                Some(account) => Some(LocalAccount::Known(account)),
                None => None,
            },
            None => if is_hidden(state, hashed_address(addr)) {
                Some(LocalAccount::Hidden)
            } else {
                Some(
                    LocalAccount::Known(
                        AccountRlp {
                            nonce: (0, 0),
                            balance: (0, 0),
                            storage_root: EMPTY_TRIE_HASH,
                            code_hash: EMPTY_CODE_HASH,
                        },
                    ),
                )
            },
        },
{
}

/// The storage root of an account after the block is that of the storage trie under the hash of its
/// address, where there is one.
pub proof fn law_storage_root_after_the_block(local: PartialTrieState, addr: Address)
    ensures
        local.storage@.contains_key(hashed_address(addr)) ==> final_storage_root(local, addr)
            == Some(root_of(trie_view(local.storage@[hashed_address(addr)]))),
        !local.storage@.contains_key(hashed_address(addr)) ==> final_storage_root(local, addr) is None,
        final_account_is_readable(local, addr) <==> {
            &&& keys_fit(local.state)
            &&& found(trie_view(local.state), hashed_address(addr)) is None || account_in(
                trie_view(local.state),
                addr,
            ) is Some
            &&& !local.storage@.contains_key(hashed_address(addr)) || keys_fit(
                local.storage@[hashed_address(addr)],
            )
        },
{
}

/// All accounts can be read where each of them can.
pub proof fn law_when_accounts_can_be_read(
    local: PartialTrieState,
    upstream: Seq<(Address, AccountRlp)>,
)
    ensures
        final_accounts_are_readable(local, upstream) <==> forall|i: int|
            0 <= i < upstream.len() ==> final_account_is_readable(
                local,
                (#[trigger] upstream[i]).0,
            ),
{
}

/// Of a known account, one error tells the balance, the nonce and the code hash that differ, where one
/// does, and one the storage root, where that differs.
pub proof fn law_what_is_reported_of_a_known_account(
    txn_idx: TxnIdx,
    addr: Address,
    account: AccountRlp,
    local_s_root: Option<TrieRootHash>,
    upstream: AccountRlp,
)
    ensures
        ({
            let errs = account_errors(
                txn_idx,
                addr,
                LocalAccount::Known(account),
                local_s_root,
                upstream,
            );
            let fields = account.balance != upstream.balance || account.nonce != upstream.nonce
                || account.code_hash != upstream.code_hash;
            let root = account.storage_root != upstream.storage_root;
            let trie = local_s_root is Some && local_s_root->0 != account.storage_root
                && local_s_root->0 != upstream.storage_root;
            &&& errs.len() == (if fields {
                1int
            } else {
                0
            }) + (if root {
                1int
            } else {
                0
            }) + (if trie {
                1int
            } else {
                0
            })
            &&& fields ==> {
                &&& errs[0] matches TraceVerificationErrorView::AccountStateMismatch(t, a, diff)
                &&& t == txn_idx
                &&& a == addr
                &&& tells_both(Some(upstream.balance), account.balance, diff.balance)
                &&& tells_both(Some(upstream.nonce), account.nonce, diff.nonce)
                &&& tells_both(Some(upstream.code_hash), account.code_hash, diff.code_hash)
                &&& diff.storage.len() == 0
            }
            &&& root ==> errs[if fields {
                1int
            } else {
                0
            }] == TraceVerificationErrorView::DecoderTrieRootMismatch(
                TrieType::Storage,
                TrieInitialOrFinal::Final,
                account.storage_root,
                upstream.storage_root,
            )
            &&& trie ==> errs.last() == TraceVerificationErrorView::DecoderTrieRootMismatch(
                TrieType::Storage,
                TrieInitialOrFinal::Final,
                local_s_root->0,
                upstream.storage_root,
            )
        }),
{
}

/// Of an account whose part of the state trie is not held, only the root of its storage trie is
/// compared.
pub proof fn law_what_is_reported_of_a_hidden_account(
    txn_idx: TxnIdx,
    addr: Address,
    local_s_root: Option<TrieRootHash>,
    upstream: AccountRlp,
)
    ensures
        ({
            let errs = account_errors(txn_idx, addr, LocalAccount::Hidden, local_s_root, upstream);
            &&& local_s_root is None ==> errs.len() == 0
            &&& local_s_root == Some(upstream.storage_root) ==> errs.len() == 0
            &&& local_s_root matches Some(root) ==> root != upstream.storage_root ==> errs == seq![
                TraceVerificationErrorView::DecoderTrieRootMismatch(
                    TrieType::Storage,
                    TrieInitialOrFinal::Final,
                    root,
                    upstream.storage_root,
                ),
            ]
        }),
{
}

/// The accounts after the block are reported one after another.
pub proof fn law_accounts_are_reported_one_after_another(
    local: PartialTrieState,
    txn_idx: TxnIdx,
    upstream: Seq<(Address, AccountRlp)>,
    addr: Address,
    account: AccountRlp,
    held: LocalAccount,
)
    requires
        final_account(trie_view(local.state), addr) == Some(held),
    ensures
        final_account_errors(local, txn_idx, Seq::empty()).len() == 0,
        final_account_errors(local, txn_idx, upstream.push((addr, account)))
            == final_account_errors(local, txn_idx, upstream) + account_errors(
            txn_idx,
            addr,
            held,
            final_storage_root(local, addr),
            account,
        ),
{
    assert(upstream.push((addr, account)).drop_last() =~= upstream);
}

/// Whether a part of an account is reported: with its new value where the transaction altered it or
/// gave it one, and not at all else.
pub open spec fn is_reported_change(change: Change<U256>, reported: Option<U256>) -> bool {
    match reported {
        Some(value) => change == Change::Altered(value) || change == Change::Born(value),
        None => change == Change::<U256>::Same || change == Change::<U256>::Died,
    }
}

/// Of a replayed transaction each part of an account is reported under its own name; the slots that
/// kept their value are left out, and those that lost it are reported to hold zero. Storage is left
/// out where nothing is told of it.
pub proof fn law_replayed_changes_are_reported(
    balance: Change<U256>,
    nonce: Change<U256>,
    code_hash: Change<U256>,
    storage: Map<StorageAddr, Change<U256>>,
    entry: AccountStateEntry,
)
    requires
        entry@ == reported_changes(balance, nonce, code_hash, storage),
    ensures
        is_reported_change(balance, entry.balance),
        is_reported_change(nonce, entry.nonce),
        is_reported_change(code_hash, entry.code_hash),
        entry.storage is None <==> storage.dom() == Set::<StorageAddr>::empty(),
        entry.storage matches Some(reported) ==> forall|slot: StorageAddr| #[trigger]
            reported@.contains_key(slot) <==> storage.contains_key(slot) && storage[slot]
                != Change::<U256>::Same,
        entry.storage matches Some(reported) ==> forall|slot: StorageAddr| #[trigger]
            reported@.contains_key(slot) ==> match storage[slot] {
                Change::Altered(value) => reported@[slot] == value,
                Change::Born(value) => reported@[slot] == value,
                _ => reported@[slot] == (0u128, 0u128),
            },
{
    assert(entry@.storage == reported_changes(balance, nonce, code_hash, storage).storage);
    if storage.dom() == Set::<StorageAddr>::empty() {
        assert(storage =~= Map::empty());
    }
}

/// Findings are told in their order, each as what it is and with everything that it holds.
pub proof fn law_findings_keep_what_they_hold(errs: Seq<TraceVerificationError>, i: int)
    requires
        0 <= i < errs.len(),
    ensures
        views(errs).len() == errs.len(),
        match errs[i] {
            TraceVerificationError::MissingStorageTrieForAccount(attempt, key, root) => views(errs)[i]
                == TraceVerificationErrorView::MissingStorageTrieForAccount(attempt, key, root),
            TraceVerificationError::MissingContractCodeForAccount(attempt, key, hash) => views(errs)[i]
                == TraceVerificationErrorView::MissingContractCodeForAccount(attempt, key, hash),
            TraceVerificationError::DecoderTrieRootMismatch(of, when, ours, theirs) => views(errs)[i]
                == TraceVerificationErrorView::DecoderTrieRootMismatch(of, when, ours, theirs),
            TraceVerificationError::UnusedStateNodesInPreImage(unused) => views(errs)[i]
                == TraceVerificationErrorView::UnusedStateNodesInPreImage(unused@),
            TraceVerificationError::UnusedStorageNodesInPreImage(unused) => views(errs)[i]
                == TraceVerificationErrorView::UnusedStorageNodesInPreImage(unused@),
            TraceVerificationError::AccountStateMismatch(txn_idx, addr, diff) => {
                &&& views(errs)[i] matches TraceVerificationErrorView::AccountStateMismatch(t, a, d)
                &&& t == txn_idx
                &&& a == addr
                &&& d.balance == diff.balance
                &&& d.nonce == diff.nonce
                &&& d.code_hash == diff.code_hash
                &&& d.storage == diff.storage@
            },
        },
{
}

} // verus!
