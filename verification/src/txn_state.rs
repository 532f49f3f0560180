//! The local state after each transaction, held against what an upstream node reports of it.

use crate::account_diff::{
    law_diff_shows_every_disagreement, AccountRlpWithStorageTrie, AccountStateEntry,
    AccountStateEntryDiffView, AccountStateEntryView, LocalAccountView,
};
use crate::codec::{
    decode_account, decode_storage_value, hash_address, hash_slot, hashed_address, hashed_slot,
    rlp_account, rlp_integer,
};
use crate::errors::{views, TraceVerificationError, TraceVerificationErrorView};
use crate::order::{address_before, keys_in_order, lemma_addresses_increase};
use crate::trie::{check_keys_fit, found, keys_fit, trie_get, trie_view, TrieView};
use crate::types::{AccountRlp, Address, HashedAccountAddr, StorageAddr, StorageVal, TxnIdx};
use eth_trie_utils::partial_trie::PartialTrie;
use std::collections::BTreeMap;
use vstd::prelude::*;

verus! {

/// The tries at some point of a block.
pub struct PartialTrieState {
    /// The accounts, under their hashed addresses.
    pub state: PartialTrie,
    /// The storage of accounts, by their hashed addresses.
    pub storage: BTreeMap<HashedAccountAddr, PartialTrie>,
}

/// What an upstream node reports of one transaction: the accounts that it changed.
pub type TxnStateDiff = BTreeMap<Address, AccountStateEntry>;

/// The account at `addr`; `None` where the trie has none there that can be read.
pub open spec fn account_in(state: TrieView, addr: Address) -> Option<AccountRlp> {
    match found(state, hashed_address(addr)) {
        Some(bytes) => rlp_account(bytes),
        None => None,
    }
}

/// The value of a storage slot; `None` where it cannot be read. Slots with the value zero have no
/// node in a storage trie.
pub open spec fn slot_in(storage: TrieView, slot: StorageAddr) -> Option<StorageVal> {
    match found(storage, hashed_slot(slot)) {
        Some(bytes) => rlp_integer(bytes),
        None => Some((0, 0)),
    }
}

/// Whether the slots can be read from the storage trie.
pub open spec fn slots_are_readable(s_trie: PartialTrie, slots: Seq<StorageAddr>) -> bool {
    forall|i: int|
        0 <= i < slots.len() ==> keys_fit(s_trie) && slot_in(
            trie_view(s_trie),
            #[trigger] slots[i],
        ) is Some
}

/// The values of the slots.
pub open spec fn slot_values(storage: TrieView, slots: Seq<StorageAddr>) -> Map<
    StorageAddr,
    StorageVal,
> {
    Map::new(|slot: StorageAddr| slots.contains(slot), |slot: StorageAddr| slot_in(storage, slot)->0)
}

/// Whether the account at `addr`, its storage trie and the slots that upstream reports on can be
/// read from the local state.
pub open spec fn is_readable(
    local: PartialTrieState,
    addr: Address,
    upstream: AccountStateEntryView,
) -> bool {
    let h_addr = hashed_address(addr);
    &&& keys_fit(local.state)
    &&& account_in(trie_view(local.state), addr) is Some
    &&& local.storage@.contains_key(h_addr)
    &&& slots_are_readable(local.storage@[h_addr], upstream.changed_slots())
}

/// The account at `addr` in the local state, with the values of the slots that upstream reports on.
pub open spec fn local_account(
    local: PartialTrieState,
    addr: Address,
    upstream: AccountStateEntryView,
) -> LocalAccountView {
    let account = account_in(trie_view(local.state), addr)->0;
    LocalAccountView {
        balance: account.balance,
        nonce: account.nonce,
        code_hash: account.code_hash,
        storage_trie_delta: slot_values(
            trie_view(local.storage@[hashed_address(addr)]),
            upstream.changed_slots(),
        ),
    }
}

/// The account at `addr`; `None` where the trie has none there that can be read.
pub fn try_get_account_from_trie(trie: &PartialTrie, addr: &Address) -> (account: Option<
    AccountRlp,
>)
    ensures
        match account {
            Some(account) => keys_fit(*trie) && account_in(trie_view(*trie), *addr) == Some(
                account,
            ),
            None => !keys_fit(*trie) || account_in(trie_view(*trie), *addr) is None,
        },
{
    if !check_keys_fit(trie) {
        return None;
    }
    let h_addr = hash_address(addr);
    match trie_get(trie, &h_addr) {
        Some(bytes) => if decode_account(bytes.as_slice()).is_some() {
            Some(get_account_from_trie(trie, addr))
        } else {
            None
        },
        None => None,
    }
}

/// The account at `addr`.
pub fn get_account_from_trie(trie: &PartialTrie, addr: &Address) -> (account: AccountRlp)
    requires
        keys_fit(*trie),
        account_in(trie_view(*trie), *addr) is Some,
    ensures
        account_in(trie_view(*trie), *addr) == Some(account),
{
    let h_addr = hash_address(addr);
    let bytes = trie_get(trie, &h_addr).unwrap();
    decode_account(bytes.as_slice()).unwrap()
}

/// The values of the slots; `None` where one of them cannot be read.
pub fn try_get_slot_values(s_trie: &PartialTrie, slots: &Vec<StorageAddr>) -> (values: Option<
    BTreeMap<StorageAddr, StorageVal>,
>)
    ensures
        match values {
            Some(values) => slots_are_readable(*s_trie, slots@) && values@ == slot_values(
                trie_view(*s_trie),
                slots@,
            ),
            None => !slots_are_readable(*s_trie, slots@),
        },
{
    let mut values: BTreeMap<StorageAddr, StorageVal> = BTreeMap::new();
    if slots.len() == 0 {
        assert(values@ =~= slot_values(trie_view(*s_trie), slots@));
        return Some(values);
    }
    if !check_keys_fit(s_trie) {
        assert(!(keys_fit(*s_trie) && slot_in(trie_view(*s_trie), slots@[0]) is Some));
        return None;
    }
    let ghost view = trie_view(*s_trie);
    for i in 0..slots.len()
        invariant
            view == trie_view(*s_trie),
            keys_fit(*s_trie),
            forall|j: int| 0 <= j < i ==> slot_in(view, #[trigger] slots@[j]) is Some,
            values@ == slot_values(view, slots@.take(i as int)),
    {
        let slot = slots[i];
        let h_slot = hash_slot(&slot);
        let value = match trie_get(s_trie, &h_slot) {
            Some(bytes) => decode_storage_value(bytes.as_slice()),
            None => Some((0, 0)),
        };
        assert(value == slot_in(view, slots@[i as int]));
        match value {
            Some(value) => {
                let ghost before = slots@.take(i as int);
                values.insert(slot, value);
                assert(slots@.take(i + 1) == before.push(slot));
                assert forall|s: StorageAddr| slots@.take(i + 1).contains(s) == (before.contains(s)
                    || s == slot) by {
                    if before.contains(s) {
                        let j = choose|j: int| 0 <= j < before.len() && before[j] == s;
                        assert(slots@.take(i + 1)[j] == s);
                    }
                    assert(slots@.take(i + 1)[i as int] == slot);
                }
                assert(values@ =~= slot_values(view, slots@.take(i + 1)));
            },
            None => {
                return None;
            },
        }
    }
    assert(slots@.take(slots@.len() as int) == slots@);
    Some(values)
}

/// The account at `addr` in the local state, with the values of the slots that upstream reports on;
/// `None` where part of it cannot be read.
pub fn try_read_local_account(
    local: &PartialTrieState,
    addr: &Address,
    upstream: &AccountStateEntry,
) -> (account: Option<AccountRlpWithStorageTrie>)
    ensures
        match account {
            Some(account) => is_readable(*local, *addr, upstream@) && account@ == local_account(
                *local,
                *addr,
                upstream@,
            ),
            None => !is_readable(*local, *addr, upstream@),
        },
{
    let local_acc_data_raw = match try_get_account_from_trie(&local.state, addr) {
        Some(account) => account,
        None => {
            return None;
        },
    };
    let h_addr = hash_address(addr);
    let s_trie = match local.storage.get(&h_addr) {
        Some(s_trie) => s_trie,
        None => {
            return None;
        },
    };
    let slots = match upstream.get_storage_addrs_changed() {
        Some(slots) => slots,
        None => Vec::new(),
    };
    assert(slots@ == upstream@.changed_slots());
    match try_get_slot_values(s_trie, &slots) {
        Some(storage_trie_delta) => Some(
            AccountRlpWithStorageTrie {
                balance: local_acc_data_raw.balance,
                nonce: local_acc_data_raw.nonce,
                code_hash: local_acc_data_raw.code_hash,
                storage_trie_delta,
            },
        ),
        None => None,
    }
}

/// Whether upstream reports on the account at `addr` after transaction `t`, and there is a local
/// state to hold that against.
pub open spec fn is_compared(
    txn_diffs: Seq<TxnStateDiff>,
    trie_state_after_each_txn: Seq<PartialTrieState>,
    t: int,
    addr: Address,
) -> bool {
    &&& 0 <= t < txn_diffs.len()
    &&& t < trie_state_after_each_txn.len()
    &&& txn_diffs[t]@.contains_key(addr)
}

/// Whether the account at `addr` after transaction `t` can be read from the local state.
pub open spec fn is_readable_at(
    txn_diffs: Seq<TxnStateDiff>,
    trie_state_after_each_txn: Seq<PartialTrieState>,
    t: int,
    addr: Address,
) -> bool {
    is_readable(trie_state_after_each_txn[t], addr, txn_diffs[t]@[addr]@)
}

/// What differs between the account at `addr` after transaction `t` and what upstream reports.
pub open spec fn diff_at(
    txn_diffs: Seq<TxnStateDiff>,
    trie_state_after_each_txn: Seq<PartialTrieState>,
    t: int,
    addr: Address,
) -> AccountStateEntryDiffView {
    let upstream = txn_diffs[t]@[addr]@;
    upstream.diff(local_account(trie_state_after_each_txn[t], addr, upstream))
}

/// Whether the account at `addr` is, after transaction `t`, not what upstream reports.
pub open spec fn mismatches_at(
    txn_diffs: Seq<TxnStateDiff>,
    trie_state_after_each_txn: Seq<PartialTrieState>,
    t: int,
    addr: Address,
) -> bool {
    &&& is_compared(txn_diffs, trie_state_after_each_txn, t, addr)
    &&& is_readable_at(txn_diffs, trie_state_after_each_txn, t, addr)
    &&& diff_at(txn_diffs, trie_state_after_each_txn, t, addr).values_have_changed()
}

/// Whether the account at `other` after transaction `s` is looked at before the account at `addr`
/// after transaction `t`.
pub open spec fn looked_at_before(s: int, other: Address, t: int, addr: Address) -> bool {
    s < t || (s == t && address_before(other, addr))
}

/// Whether there is a mismatch before the account at `addr` after transaction `t` is looked at.
pub open spec fn mismatch_comes_before(
    txn_diffs: Seq<TxnStateDiff>,
    trie_state_after_each_txn: Seq<PartialTrieState>,
    t: int,
    addr: Address,
) -> bool {
    exists|s: int, other: Address|
        looked_at_before(s, other, t, addr) && #[trigger] mismatches_at(
            txn_diffs,
            trie_state_after_each_txn,
            s,
            other,
        )
}

/// Whether every account that has to be looked at, up to the first mismatch, can be read.
pub open spec fn readable_to_first_mismatch(
    txn_diffs: Seq<TxnStateDiff>,
    trie_state_after_each_txn: Seq<PartialTrieState>,
) -> bool {
    forall|t: int, addr: Address| #[trigger]
        is_compared(txn_diffs, trie_state_after_each_txn, t, addr) ==> is_readable_at(
            txn_diffs,
            trie_state_after_each_txn,
            t,
            addr,
        ) || mismatch_comes_before(txn_diffs, trie_state_after_each_txn, t, addr)
}

/// Whether nothing that is compared mismatches.
pub open spec fn no_mismatch(
    txn_diffs: Seq<TxnStateDiff>,
    trie_state_after_each_txn: Seq<PartialTrieState>,
) -> bool {
    forall|t: int, addr: Address|
        !(#[trigger] mismatches_at(txn_diffs, trie_state_after_each_txn, t, addr))
}

/// Whether `err` reports the first mismatch, with everything that differs there.
pub open spec fn reports_first_mismatch(
    txn_diffs: Seq<TxnStateDiff>,
    trie_state_after_each_txn: Seq<PartialTrieState>,
    err: TraceVerificationErrorView,
) -> bool {
    &&& err matches TraceVerificationErrorView::AccountStateMismatch(txn_idx, addr, diff)
    &&& mismatches_at(txn_diffs, trie_state_after_each_txn, txn_idx as int, addr)
    &&& !mismatch_comes_before(txn_diffs, trie_state_after_each_txn, txn_idx as int, addr)
    &&& diff == diff_at(txn_diffs, trie_state_after_each_txn, txn_idx as int, addr)
}

/// Whether `after` is `before` with a report of the first mismatch, or just `before` where nothing
/// mismatches.
pub open spec fn first_mismatch_is_reported(
    txn_diffs: Seq<TxnStateDiff>,
    trie_state_after_each_txn: Seq<PartialTrieState>,
    before: Seq<TraceVerificationErrorView>,
    after: Seq<TraceVerificationErrorView>,
) -> bool {
    if no_mismatch(txn_diffs, trie_state_after_each_txn) {
        after == before
    } else {
        &&& after.len() == before.len() + 1
        &&& after.drop_last() == before
        &&& reports_first_mismatch(txn_diffs, trie_state_after_each_txn, after.last())
    }
}

/// The mismatch between what upstream reports of an account and the local account, as an error;
/// `None` where nothing differs.
pub fn account_mismatch(
    txn_idx: TxnIdx,
    addr: &Address,
    upstream: &AccountStateEntry,
    local: &AccountRlpWithStorageTrie,
) -> (mismatch: Option<TraceVerificationError>)
    ensures
        match mismatch {
            Some(err) => {
                &&& upstream@.diff(local@).values_have_changed()
                &&& err@ == TraceVerificationErrorView::AccountStateMismatch(
                    txn_idx,
                    *addr,
                    upstream@.diff(local@),
                )
            },
            None => !upstream@.diff(local@).values_have_changed(),
        },
{
    let diff = upstream.create_diff_from_actual_data(local);
    if diff.values_have_changed() {
        Some(TraceVerificationError::AccountStateMismatch(txn_idx, *addr, diff))
    } else {
        None
    }
}

/// Looks at the accounts that upstream reports on, transaction by transaction and by ascending
/// address, up to the first that differs, and gives that one as an error. `None` where an account
/// before it cannot be read.
pub fn find_first_mismatch(
    txn_diffs: &Vec<TxnStateDiff>,
    trie_state_after_each_txn: &[PartialTrieState],
) -> (found: Option<Option<TraceVerificationError>>)
    ensures
        match found {
            Some(first) => {
                &&& readable_to_first_mismatch(txn_diffs@, trie_state_after_each_txn@)
                &&& match first {
                    Some(err) => reports_first_mismatch(
                        txn_diffs@,
                        trie_state_after_each_txn@,
                        err@,
                    ),
                    None => no_mismatch(txn_diffs@, trie_state_after_each_txn@),
                }
            },
            None => !readable_to_first_mismatch(txn_diffs@, trie_state_after_each_txn@),
        },
{
    let ghost diffs = txn_diffs@;
    let ghost states = trie_state_after_each_txn@;
    let mut txn_idx: TxnIdx = 0;
    while txn_idx < txn_diffs.len() && txn_idx < trie_state_after_each_txn.len()
        invariant
            diffs == txn_diffs@,
            states == trie_state_after_each_txn@,
            txn_idx <= diffs.len(),
            txn_idx <= states.len(),
            forall|s: int, addr: Address|
                s < txn_idx && #[trigger] is_compared(diffs, states, s, addr) ==> is_readable_at(
                    diffs,
                    states,
                    s,
                    addr,
                ) && !mismatches_at(diffs, states, s, addr),
        decreases diffs.len() - txn_idx,
    {
        let ghost t = txn_idx as int;
        let txn_diff = &txn_diffs[txn_idx];
        let local = &trie_state_after_each_txn[txn_idx];
        let addrs = keys_in_order(txn_diff);
        proof {
            lemma_addresses_increase(addrs@);
            assert forall|addr: Address| #[trigger] is_compared(diffs, states, t, addr) implies exists|
                j: int,
            | 0 <= j < addrs@.len() && addrs@[j] == addr by {
                assert(addrs@.to_set().contains(addr));
            }
        }
        for i in 0..addrs.len()
            invariant
                diffs == txn_diffs@,
                states == trie_state_after_each_txn@,
                t == txn_idx,
                0 <= t < diffs.len(),
                t < states.len(),
                *txn_diff == diffs[t],
                *local == states[t],
                addrs@.to_set() == txn_diff@.dom(),
                forall|i: int, j: int|
                    0 <= i < j < addrs@.len() ==> address_before(
                        #[trigger] addrs@[i],
                        #[trigger] addrs@[j],
                    ),
                forall|addr: Address| #[trigger]
                    is_compared(diffs, states, t, addr) ==> exists|j: int|
                        0 <= j < addrs@.len() && addrs@[j] == addr,
                forall|s: int, addr: Address|
                    s < t && #[trigger] is_compared(diffs, states, s, addr) ==> is_readable_at(
                        diffs,
                        states,
                        s,
                        addr,
                    ) && !mismatches_at(diffs, states, s, addr),
                forall|j: int|
                    0 <= j < i ==> is_readable_at(diffs, states, t, #[trigger] addrs@[j])
                        && !mismatches_at(diffs, states, t, addrs@[j]),
        {
            let diff_addr = addrs[i];
            assert(addrs@.to_set().contains(diff_addr));
            assert(is_compared(diffs, states, t, diff_addr));
            proof {
                assert forall|s: int, other: Address|
                    looked_at_before(s, other, t, diff_addr) && is_compared(
                        diffs,
                        states,
                        s,
                        other,
                    ) implies !(#[trigger] mismatches_at(diffs, states, s, other)) by {
                    if s == t {
                        let j = choose|j: int| 0 <= j < addrs@.len() && addrs@[j] == other;
                        if j > i {
                            assert(address_before(addrs@[i as int], addrs@[j]));
                        }
                        assert(!mismatches_at(diffs, states, t, addrs@[j]));
                    }
                }
                assert(!mismatch_comes_before(diffs, states, t, diff_addr));
            }
            let new_upstream_val = txn_diff.get(&diff_addr).unwrap();
            match try_read_local_account(local, &diff_addr, new_upstream_val) {
                Some(local_acc_data_with_s_trie) => {
                    match account_mismatch(
                        txn_idx,
                        &diff_addr,
                        new_upstream_val,
                        &local_acc_data_with_s_trie,
                    ) {
                        Some(err) => {
                            proof {
                                assert(mismatches_at(diffs, states, t, diff_addr));
                                assert forall|s: int, addr: Address| #[trigger]
                                    is_compared(diffs, states, s, addr) implies is_readable_at(
                                    diffs,
                                    states,
                                    s,
                                    addr,
                                ) || mismatch_comes_before(diffs, states, s, addr) by {
                                    if s == t {
                                        let j = choose|j: int|
                                            0 <= j < addrs@.len() && addrs@[j] == addr;
                                        if j > i {
                                            assert(address_before(addrs@[i as int], addrs@[j]));
                                            assert(looked_at_before(t, diff_addr, s, addr));
                                        } else if j < i {
                                            assert(is_readable_at(diffs, states, t, addrs@[j]));
                                        }
                                    } else if s > t {
                                        assert(looked_at_before(t, diff_addr, s, addr));
                                    }
                                }
                            }
                            return Some(Some(err));
                        },
                        None => {},
                    }
                },
                None => {
                    return None;
                },
            }
        }
        proof {
            assert forall|s: int, addr: Address|
                s < t + 1 && #[trigger] is_compared(diffs, states, s, addr) implies is_readable_at(
                diffs,
                states,
                s,
                addr,
            ) && !mismatches_at(diffs, states, s, addr) by {
                if s == t {
                    let j = choose|j: int| 0 <= j < addrs@.len() && addrs@[j] == addr;
                    assert(is_readable_at(diffs, states, t, addrs@[j]));
                }
            }
        }
        txn_idx += 1;
    }
    Some(None)
}

/// Reports the first account that is, after some transaction, not what upstream reports, and stops
/// there. Tells whether every account up to it could be read; nothing is reported where not.
pub fn try_find_and_report_upstream_txn_states(
    txn_diffs: &Vec<TxnStateDiff>,
    trie_state_after_each_txn: &[PartialTrieState],
    err_buf: &mut Vec<TraceVerificationError>,
) -> (readable: bool)
    ensures
        readable == readable_to_first_mismatch(txn_diffs@, trie_state_after_each_txn@),
        if readable {
            first_mismatch_is_reported(
                txn_diffs@,
                trie_state_after_each_txn@,
                views(old(err_buf)@),
                views(final(err_buf)@),
            )
        } else {
            views(final(err_buf)@) == views(old(err_buf)@)
        },
{
    match find_first_mismatch(txn_diffs, trie_state_after_each_txn) {
        Some(first) => {
            if let Some(err) = first {
                err_buf.push(err);
                assert(views(err_buf@).drop_last() =~= views(old(err_buf)@));
            }
            true
        },
        None => false,
    }
}

/// Reports the first account that is, after some transaction, not what upstream reports, and stops
/// there.
pub fn find_and_report_upstream_txn_states_that_differ_from_ours(
    txn_diffs: &Vec<TxnStateDiff>,
    trie_state_after_each_txn: &[PartialTrieState],
    err_buf: &mut Vec<TraceVerificationError>,
)
    requires
        readable_to_first_mismatch(txn_diffs@, trie_state_after_each_txn@),
    ensures
        first_mismatch_is_reported(
            txn_diffs@,
            trie_state_after_each_txn@,
            views(old(err_buf)@),
            views(final(err_buf)@),
        ),
{
    try_find_and_report_upstream_txn_states(txn_diffs, trie_state_after_each_txn, err_buf);
}

/// A slot that has no node in the storage trie holds zero.
pub proof fn law_missing_slot_holds_zero(
    local: PartialTrieState,
    addr: Address,
    upstream: AccountStateEntry,
    slot: StorageAddr,
)
    requires
        is_readable(local, addr, upstream@),
        found(trie_view(local.storage@[hashed_address(addr)]), hashed_slot(slot)) is None,
    ensures
        local_account(local, addr, upstream@).slot(slot) == (0u128, 0u128),
{
}

/// Nothing is reported exactly where every account has, after each transaction, every value that
/// upstream reports of it.
pub proof fn law_silence_means_agreement(
    txn_diffs: Seq<TxnStateDiff>,
    trie_state_after_each_txn: Seq<PartialTrieState>,
    before: Seq<TraceVerificationErrorView>,
    after: Seq<TraceVerificationErrorView>,
)
    requires
        readable_to_first_mismatch(txn_diffs, trie_state_after_each_txn),
        first_mismatch_is_reported(txn_diffs, trie_state_after_each_txn, before, after),
    ensures
        after == before <==> forall|t: int, addr: Address| #[trigger]
            is_compared(txn_diffs, trie_state_after_each_txn, t, addr) ==> is_readable_at(
                txn_diffs,
                trie_state_after_each_txn,
                t,
                addr,
            ) && txn_diffs[t]@[addr]@.agrees_with(
                local_account(trie_state_after_each_txn[t], addr, txn_diffs[t]@[addr]@),
            ),
{
    assert forall|t: int, addr: Address| #[trigger]
        is_compared(txn_diffs, trie_state_after_each_txn, t, addr) implies diff_at(
        txn_diffs,
        trie_state_after_each_txn,
        t,
        addr,
    ).values_have_changed() == !txn_diffs[t]@[addr]@.agrees_with(
        local_account(trie_state_after_each_txn[t], addr, txn_diffs[t]@[addr]@),
    ) by {
        law_diff_shows_every_disagreement(
            txn_diffs[t]@[addr],
            local_account(trie_state_after_each_txn[t], addr, txn_diffs[t]@[addr]@),
        );
    }
    if no_mismatch(txn_diffs, trie_state_after_each_txn) {
        assert forall|t: int, addr: Address| #[trigger]
            is_compared(txn_diffs, trie_state_after_each_txn, t, addr) implies is_readable_at(
            txn_diffs,
            trie_state_after_each_txn,
            t,
            addr,
        ) && !diff_at(txn_diffs, trie_state_after_each_txn, t, addr).values_have_changed() by {
            assert(!mismatches_at(txn_diffs, trie_state_after_each_txn, t, addr));
        }
    } else {
        let (t, addr) = choose|t: int, addr: Address| #[trigger]
            mismatches_at(txn_diffs, trie_state_after_each_txn, t, addr);
        assert(is_compared(txn_diffs, trie_state_after_each_txn, t, addr));
    }
}

/// At most one mismatch is reported.
pub proof fn law_at_most_one_mismatch_is_reported(
    txn_diffs: Seq<TxnStateDiff>,
    trie_state_after_each_txn: Seq<PartialTrieState>,
    before: Seq<TraceVerificationErrorView>,
    after: Seq<TraceVerificationErrorView>,
)
    requires
        first_mismatch_is_reported(txn_diffs, trie_state_after_each_txn, before, after),
    ensures
        before.is_prefix_of(after),
        after.len() <= before.len() + 1,
{
    assert(after.subrange(0, before.len() as int) =~= before);
}

} // verus!
