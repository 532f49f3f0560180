//! Checks of the tries after each transaction: what the accounts in them refer to must be there.

use crate::errors::{append_errors, views, TraceVerificationError, TraceVerificationErrorView};
use crate::order::insert_keys;
use crate::prestate::{
    check_leaf_keys, code_error, code_errors, code_hashes_of, find_missing_contract_code,
    find_missing_storage_tries, lacks_contract_code, lacks_storage_trie,
    law_nothing_is_reported_without_culprits, storage_error, storage_errors, without_code,
    without_storage_trie,
};
use crate::reverse_hash::{
    address_lookups, has_leaf, index, index_addresses, known_addresses, leaf_keys_are_hashes,
    lookups_by, record_leaves, HashLookupAttempt,
};
use crate::trace::{
    get_all_storage_tries_that_are_accessed, storage_keys_are_hashes, storage_tries_accessed,
    ProcessedTxnInfo, TxnInfo,
};
use crate::trie::{accounts_of, get_leaf_vals_from_trie_and_decode, holds_accounts, leaves_of};
use crate::txn_state::PartialTrieState;
use crate::types::{AccountRlp, Address, CodeHash, HashedAccountAddr, Nibbles, H256};
use std::collections::BTreeMap;
use std::collections::BTreeSet;
use vstd::prelude::*;

verus! {

/// The code hashes of the contracts that transaction `t` runs.
pub open spec fn code_run_by(traces: Seq<ProcessedTxnInfo>, t: int) -> Set<CodeHash> {
    if 0 <= t < traces.len() {
        traces[t].contract_code_accessed@.dom()
    } else {
        Set::empty()
    }
}

/// Whether the state lists accounts under hashed addresses.
pub open spec fn state_is_checkable(state: PartialTrieState) -> bool {
    leaf_keys_are_hashes(state.state) && holds_accounts(state.state)
}

/// What is reported of the state after a transaction: the accounts whose code the transaction runs
/// and nobody has, then those whose storage the block reaches and that have no storage trie.
pub open spec fn state_errors(
    state: PartialTrieState,
    code_run: Set<CodeHash>,
    code_known: Set<CodeHash>,
    storage_reached: Set<HashedAccountAddr>,
    addrs: Map<Nibbles, HashLookupAttempt<Address>>,
) -> Seq<TraceVerificationErrorView> {
    code_errors(accounts_of(state.state), code_run, code_known, addrs) + storage_errors(
        accounts_of(state.state),
        storage_reached,
        state.storage@.dom(),
        addrs,
    )
}

/// What is reported of the states, transaction by transaction.
pub open spec fn states_errors(
    states: Seq<PartialTrieState>,
    traces: Seq<ProcessedTxnInfo>,
    code_known: Set<CodeHash>,
    raw_traces: Seq<TxnInfo>,
) -> Seq<TraceVerificationErrorView>
    decreases states.len(),
{
    if states.len() == 0 {
        Seq::empty()
    } else {
        states_errors(states.drop_last(), traces, code_known, raw_traces) + state_errors(
            states.last(),
            code_run_by(traces, states.len() - 1),
            code_known,
            storage_tries_accessed(traces),
            address_lookups(states.last().state, raw_traces),
        )
    }
}

/// Whether the states after all transactions list accounts under hashed addresses.
pub open spec fn states_are_checkable(states: Seq<PartialTrieState>) -> bool {
    forall|t: int| 0 <= t < states.len() ==> state_is_checkable(#[trigger] states[t])
}

/// Makes the checks of the state after one transaction; `None` where they cannot be made.
fn verify_state(
    state: &PartialTrieState,
    code_run: &BTreeSet<CodeHash>,
    code_known: &BTreeSet<CodeHash>,
    storage_reached: &BTreeSet<HashedAccountAddr>,
    addresses: &BTreeMap<H256, Address>,
) -> (found: Option<Vec<TraceVerificationError>>)
    ensures
        match found {
            Some(errs) => {
                &&& state_is_checkable(*state)
                &&& views(errs@) == state_errors(
                    *state,
                    code_run@,
                    code_known@,
                    storage_reached@,
                    lookups_by(state.state, addresses@),
                )
            },
            None => !state_is_checkable(*state),
        },
{
    if !check_leaf_keys(&state.state) {
        return None;
    }
    match get_leaf_vals_from_trie_and_decode(&state.state) {
        Some(accounts) => {
            let mut addrs: BTreeMap<Nibbles, HashLookupAttempt<Address>> = BTreeMap::new();
            record_leaves(&state.state, addresses, &mut addrs);
            proof {
                assert(addrs@ =~= lookups_by(state.state, addresses@));
                assert forall|i: int| 0 <= i < accounts@.len() implies addrs@.contains_key(
                    (#[trigger] accounts@[i]).0,
                ) by {
                    assert(leaves_of(state.state)[i].0 == accounts@[i].0);
                    assert(has_leaf(state.state, accounts@[i].0));
                }
            }
            let mut errs = find_missing_contract_code(
                &accounts,
                code_run,
                code_known,
                &addrs,
            ).unwrap();
            let without_trie = find_missing_storage_tries(
                &accounts,
                storage_reached,
                &state.storage,
                &addrs,
            ).unwrap();
            append_errors(&mut errs, without_trie);
            Some(errs)
        },
        None => None,
    }
}

/// Makes the checks of the states after each transaction; `None` where they cannot be made. Code is
/// known where it came with the tries before the block or the block created it.
pub fn verify_states_after_each_txn(
    trie_state_after_each_txn: &[PartialTrieState],
    traces: &[ProcessedTxnInfo],
    code_supplied_by_pre_image: &BTreeMap<CodeHash, Vec<u8>>,
    code_created_by_block: &BTreeMap<CodeHash, Vec<u8>>,
    raw_traces: &[TxnInfo],
) -> (found: Option<Vec<TraceVerificationError>>)
    requires
        forall|t: int| 0 <= t < traces@.len() ==> storage_keys_are_hashes(#[trigger] traces@[t]),
    ensures
        match found {
            Some(errs) => {
                &&& states_are_checkable(trie_state_after_each_txn@)
                &&& views(errs@) == states_errors(
                    trie_state_after_each_txn@,
                    traces@,
                    code_supplied_by_pre_image@.dom().union(code_created_by_block@.dom()),
                    raw_traces@,
                )
            },
            None => !states_are_checkable(trie_state_after_each_txn@),
        },
{
    let ghost states = trie_state_after_each_txn@;
    let addresses = index_addresses(raw_traces);
    let storage_reached = get_all_storage_tries_that_are_accessed(traces);
    let mut code_known = code_hashes_of(code_supplied_by_pre_image);
    insert_keys(&mut code_known, code_created_by_block);
    let mut errs: Vec<TraceVerificationError> = Vec::new();
    for t in 0..trie_state_after_each_txn.len()
        invariant
            states == trie_state_after_each_txn@,
            addresses@ == index(known_addresses(raw_traces@)),
            storage_reached@ == storage_tries_accessed(traces@),
            code_known@ == code_supplied_by_pre_image@.dom().union(code_created_by_block@.dom()),
            states_are_checkable(states.take(t as int)),
            views(errs@) == states_errors(
                states.take(t as int),
                traces@,
                code_known@,
                raw_traces@,
            ),
    {
        assert(states.take(t + 1).drop_last() == states.take(t as int));
        let mut code_run: BTreeSet<CodeHash> = BTreeSet::new();
        if t < traces.len() {
            insert_keys(&mut code_run, &traces[t].contract_code_accessed);
        }
        assert(code_run@ =~= code_run_by(traces@, t as int));
        match verify_state(
            &trie_state_after_each_txn[t],
            &code_run,
            &code_known,
            &storage_reached,
            &addresses,
        ) {
            Some(found) => {
                append_errors(&mut errs, found);
            },
            None => {
                assert(!state_is_checkable(states[t as int]));
                return None;
            },
        }
    }
    assert(states.take(states.len() as int) == states);
    Some(errs)
}

/// Whether, after each transaction, every account whose code the transaction runs has known code, and
/// every account whose storage the block reaches has a storage trie.
pub open spec fn states_are_complete(
    states: Seq<PartialTrieState>,
    traces: Seq<ProcessedTxnInfo>,
    code_known: Set<CodeHash>,
) -> bool {
    forall|t: int, i: int|
        0 <= t < states.len() && 0 <= i < accounts_of(states[t].state).len() ==> {
            let (h_addr, account) = #[trigger] accounts_of(states[t].state)[i];
            &&& !lacks_contract_code(account, code_run_by(traces, t), code_known)
            &&& !lacks_storage_trie(
                h_addr,
                account,
                storage_tries_accessed(traces),
                states[t].storage@.dom(),
            )
        }
}

/// The checks of the states after each transaction report nothing exactly where every account has its
/// code and its storage trie after each of them.
pub proof fn law_complete_states_pass(
    states: Seq<PartialTrieState>,
    traces: Seq<ProcessedTxnInfo>,
    code_known: Set<CodeHash>,
    raw_traces: Seq<TxnInfo>,
)
    ensures
        states_errors(states, traces, code_known, raw_traces).len() == 0 <==> states_are_complete(
            states,
            traces,
            code_known,
        ),
    decreases states.len(),
{
    if states.len() > 0 {
        let rest = states.drop_last();
        let last = states.last();
        let t = states.len() - 1;
        let addrs = address_lookups(last.state, raw_traces);
        let accounts = accounts_of(last.state);
        let run = code_run_by(traces, t);
        let reached = storage_tries_accessed(traces);
        law_complete_states_pass(rest, traces, code_known, raw_traces);
        law_nothing_is_reported_without_culprits(
            accounts,
            without_code(run, code_known),
            |account: (Nibbles, AccountRlp)| code_error(account, addrs),
        );
        law_nothing_is_reported_without_culprits(
            accounts,
            without_storage_trie(reached, last.storage@.dom()),
            |account: (Nibbles, AccountRlp)| storage_error(account, addrs),
        );
        if states_are_complete(states, traces, code_known) {
            assert forall|s: int, i: int|
                0 <= s < rest.len() && 0 <= i < accounts_of(rest[s].state).len() implies ({
                let (h_addr, account) = #[trigger] accounts_of(rest[s].state)[i];
                &&& !lacks_contract_code(account, code_run_by(traces, s), code_known)
                &&& !lacks_storage_trie(h_addr, account, reached, rest[s].storage@.dom())
            }) by {
                assert(accounts_of(states[s].state)[i] == accounts_of(rest[s].state)[i]);
            }
            assert forall|i: int| 0 <= i < accounts.len() implies !without_code(run, code_known)(
                #[trigger] accounts[i],
            ) && !without_storage_trie(reached, last.storage@.dom())(accounts[i]) by {
                assert(accounts_of(states[t].state)[i] == accounts[i]);
            }
        }
        if states_errors(states, traces, code_known, raw_traces).len() == 0 {
            assert forall|s: int, i: int|
                0 <= s < states.len() && 0 <= i < accounts_of(states[s].state).len() implies ({
                let (h_addr, account) = #[trigger] accounts_of(states[s].state)[i];
                &&& !lacks_contract_code(account, code_run_by(traces, s), code_known)
                &&& !lacks_storage_trie(h_addr, account, reached, states[s].storage@.dom())
            }) by {
                if s < rest.len() {
                    assert(accounts_of(rest[s].state)[i] == accounts_of(states[s].state)[i]);
                } else {
                    assert(!without_code(run, code_known)(accounts[i]));
                }
            }
        }
    }
}

} // verus!
