//! The checks of the tries before a block.

use crate::codec::{hashed_address, hashed_slot};
use crate::errors::{HashedKeyAndUnhashedLookup, TraceVerificationErrorView};
use crate::order::{in_order, lemma_addresses_are_ordered, lemma_in_order};
use crate::prestate::{
    code_errors, code_is_checkable, pre_state_errors, pre_state_is_checkable,
    storage_errors, storage_is_checkable,
};
use crate::reverse_hash::{
    address_lookups, has_leaf, has_storage_leaf, index, known_addresses, known_slots,
    leaf_keys_are_hashes, lemma_slots_of_trace, lookup, pre_images_are_hashed, slot_lookups,
    slots_of_accounts, slots_of_trace, slots_of_txn, slots_used, trace_reaches_slot,
    txn_reaches_slot, with_hashed_addresses, with_hashed_slots, HashLookupAttempt,
    PartialTriePreImages,
};
use crate::trace::{
    addrs_used, contract_code_accessed, reaches_storage_of, storage_keys_are_hashes,
    storage_tries_accessed, ProcessedTxnInfo, TxnInfo, TxnTrace,
};
use crate::trie::{accounts_of, holds_accounts, keys_fit, leaves_of};
use crate::types::{
    AccountRlp, Address, CodeHash, HashedAccountAddr, Nibbles, StorageAddr, EMPTY_CODE_HASH,
    EMPTY_TRIE_HASH, H256,
};
use crate::unused::{
    leaves_reached, misplaced_among, misplaced_in, misplaced_leaves, storage_is_looked_up,
    trace_reaches_hash, txn_reaches_leaf, unknown_among, unknown_keys, unused_state_errors,
    unused_storage_errors,
};
use eth_trie_utils::partial_trie::PartialTrie;
use vstd::prelude::*;

verus! {

/// Code is run by the block where some transaction of it runs that code.
pub proof fn law_code_run_by_the_block(traces: Seq<ProcessedTxnInfo>, code_hash: CodeHash)
    ensures
        contract_code_accessed(traces).contains(code_hash) <==> exists|t: int|
            0 <= t < traces.len() && (
            #[trigger] traces[t]).contract_code_accessed@.dom().contains(code_hash),
{
    if contract_code_accessed(traces).contains(code_hash) {
        let t = choose|t: int|
            0 <= t < traces.len() && (#[trigger] traces[t]).contract_code_accessed@.contains_key(
                code_hash,
            );
        assert(traces[t].contract_code_accessed@.dom().contains(code_hash));
    }
    if exists|t: int|
        0 <= t < traces.len() && (#[trigger] traces[t]).contract_code_accessed@.dom().contains(
            code_hash,
        ) {
        let t = choose|t: int|
            0 <= t < traces.len() && (
            #[trigger] traces[t]).contract_code_accessed@.dom().contains(code_hash);
        assert(traces[t].contract_code_accessed@.contains_key(code_hash));
    }
}

/// The storage of an account is reached by the block where some transaction of it lists an access
/// under the hash of the account's address.
pub proof fn law_storage_reached_by_the_block(
    traces: Seq<ProcessedTxnInfo>,
    h_addr: HashedAccountAddr,
)
    ensures
        storage_tries_accessed(traces).contains(h_addr) <==> exists|t: int, i: int|
            0 <= t < traces.len() && 0 <= i
                < traces[t].nodes_used_by_txn.storage_accesses@.len() && (
            #[trigger] traces[t].nodes_used_by_txn.storage_accesses@[i]).0.1 == h_addr,
{
    if storage_tries_accessed(traces).contains(h_addr) {
        let t = choose|t: int|
            0 <= t < traces.len() && #[trigger] reaches_storage_of(traces[t], h_addr);
        let i = choose|i: int|
            0 <= i < traces[t].nodes_used_by_txn.storage_accesses@.len() && (
            #[trigger] traces[t].nodes_used_by_txn.storage_accesses@[i]).0.1 == h_addr;
        assert(traces[t].nodes_used_by_txn.storage_accesses@[i].0.1 == h_addr);
    }
    if exists|t: int, i: int|
        0 <= t < traces.len() && 0 <= i < traces[t].nodes_used_by_txn.storage_accesses@.len() && (
        #[trigger] traces[t].nodes_used_by_txn.storage_accesses@[i]).0.1 == h_addr {
        let (t, i) = choose|t: int, i: int|
            0 <= t < traces.len() && 0 <= i
                < traces[t].nodes_used_by_txn.storage_accesses@.len() && (
            #[trigger] traces[t].nodes_used_by_txn.storage_accesses@[i]).0.1 == h_addr;
        assert(reaches_storage_of(traces[t], h_addr));
    }
}

/// The keys of a transaction's storage accesses are hashes where each takes thirty-two bytes.
pub proof fn law_accessed_keys_are_hashes(txn: ProcessedTxnInfo)
    ensures
        storage_keys_are_hashes(txn) <==> forall|i: int|
            0 <= i < txn.nodes_used_by_txn.storage_accesses@.len() ==> ((
            #[trigger] txn.nodes_used_by_txn.storage_accesses@[i]).0.0 + 1) / 2 == 32,
{
}

/// An address is used by the block where some transaction of it touches that address.
pub proof fn law_addresses_used_by_the_block(traces: Seq<TxnInfo>, addr: Address)
    ensures
        addrs_used(traces).contains(addr) <==> exists|t: int|
            0 <= t < traces.len() && (#[trigger] traces[t]).traces@.dom().contains(addr),
{
    if addrs_used(traces).contains(addr) {
        let t = choose|t: int|
            0 <= t < traces.len() && (#[trigger] traces[t]).traces@.contains_key(addr);
        assert(traces[t].traces@.dom().contains(addr));
    }
    if exists|t: int| 0 <= t < traces.len() && (#[trigger] traces[t]).traces@.dom().contains(addr) {
        let t = choose|t: int|
            0 <= t < traces.len() && (#[trigger] traces[t]).traces@.dom().contains(addr);
        assert(traces[t].traces@.contains_key(addr));
    }
}

/// Of accounts in their order, those and only those are reported whose code hash is not that of empty
/// code, is run and is not supplied, each with its key and code hash, whatever else the account
/// holds.
pub proof fn law_missing_code_is_reported(
    accounts: Seq<(Nibbles, AccountRlp)>,
    accessed: Set<CodeHash>,
    supplied: Set<CodeHash>,
    addrs: Map<Nibbles, HashLookupAttempt<Address>>,
)
    ensures
        code_errors(accounts, accessed, supplied, addrs) == accounts.filter_map(
            |account: (Nibbles, AccountRlp)|
                if account.1.code_hash != EMPTY_CODE_HASH && accessed.contains(account.1.code_hash)
                    && !supplied.contains(account.1.code_hash) {
                    Some(
                        TraceVerificationErrorView::MissingContractCodeForAccount(
                            addrs[account.0],
                            account.0,
                            account.1.code_hash,
                        ),
                    )
                } else {
                    None
                },
        ),
    decreases accounts.len(),
{
    if accounts.len() > 0 {
        law_missing_code_is_reported(accounts.drop_last(), accessed, supplied, addrs);
    }
}

/// Of accounts in their order, those and only those are reported whose storage root is not that of an
/// empty trie, whose storage is reached and whose storage trie is not supplied, each with its key and
/// storage root, whatever else the account holds.
pub proof fn law_missing_storage_tries_are_reported(
    accounts: Seq<(Nibbles, AccountRlp)>,
    accessed: Set<HashedAccountAddr>,
    supplied: Set<HashedAccountAddr>,
    addrs: Map<Nibbles, HashLookupAttempt<Address>>,
)
    ensures
        storage_errors(accounts, accessed, supplied, addrs) == accounts.filter_map(
            |account: (Nibbles, AccountRlp)|
                if account.1.storage_root != EMPTY_TRIE_HASH && accessed.contains(account.0.1)
                    && !supplied.contains(account.0.1) {
                    Some(
                        TraceVerificationErrorView::MissingStorageTrieForAccount(
                            addrs[account.0],
                            account.0,
                            account.1.storage_root,
                        ),
                    )
                } else {
                    None
                },
        ),
    decreases accounts.len(),
{
    if accounts.len() > 0 {
        law_missing_storage_tries_are_reported(accounts.drop_last(), accessed, supplied, addrs);
    }
}

/// The hashes of empty code and of an empty trie.
pub proof fn law_hashes_of_nothing()
    ensures
        EMPTY_CODE_HASH == (
            0xc5d2460186f7233c927e7db2dcc703c0u128,
            0xe500b653ca82273b7bfad8045d85a470u128,
        ),
        EMPTY_TRIE_HASH == (
            0x56e81f171bcc55a6ff8345e692c0f86eu128,
            0x5b48e01b996cadc001622fb5e363b421u128,
        ),
{
}

/// Every account of the state trie before the block whose code hash is not that of empty code, is run
/// by some transaction and is not supplied gets an error with its key and code hash.
pub proof fn law_every_account_without_code_is_reported(
    pre_image: PartialTriePreImages,
    code_supplied: Set<CodeHash>,
    raw_traces: Seq<TxnInfo>,
    tries: PartialTriePreImages,
    traces: Seq<ProcessedTxnInfo>,
    i: int,
    t: int,
)
    requires
        0 <= i < accounts_of(pre_image.state).len(),
        0 <= t < traces.len(),
        accounts_of(pre_image.state)[i].1.code_hash != EMPTY_CODE_HASH,
        traces[t].contract_code_accessed@.contains_key(
            accounts_of(pre_image.state)[i].1.code_hash,
        ),
        !code_supplied.contains(accounts_of(pre_image.state)[i].1.code_hash),
    ensures
        pre_state_errors(pre_image, code_supplied, raw_traces, tries, traces).contains(
            TraceVerificationErrorView::MissingContractCodeForAccount(
                address_lookups(pre_image.state, raw_traces)[accounts_of(pre_image.state)[i].0],
                accounts_of(pre_image.state)[i].0,
                accounts_of(pre_image.state)[i].1.code_hash,
            ),
        ),
{
    let accounts = accounts_of(pre_image.state);
    let addrs = address_lookups(pre_image.state, raw_traces);
    let accessed = contract_code_accessed(traces);
    lemma_code_error_is_among(accounts, accessed, code_supplied, addrs, i);
    let errs = code_errors(accounts, accessed, code_supplied, addrs);
    let err = TraceVerificationErrorView::MissingContractCodeForAccount(
        addrs[accounts[i].0],
        accounts[i].0,
        accounts[i].1.code_hash,
    );
    let e = choose|e: int| 0 <= e < errs.len() && errs[e] == err;
    assert(pre_state_errors(pre_image, code_supplied, raw_traces, tries, traces)[e] == err);
}

/// Every account of the state trie that the transactions start from whose storage root is not that of
/// an empty trie, whose storage some transaction reaches and that has no storage trie gets an error
/// with its key and storage root.
pub proof fn law_every_account_without_storage_trie_is_reported(
    pre_image: PartialTriePreImages,
    code_supplied: Set<CodeHash>,
    raw_traces: Seq<TxnInfo>,
    tries: PartialTriePreImages,
    traces: Seq<ProcessedTxnInfo>,
    i: int,
    t: int,
    n: int,
)
    requires
        0 <= i < accounts_of(tries.state).len(),
        0 <= t < traces.len(),
        0 <= n < traces[t].nodes_used_by_txn.storage_accesses@.len(),
        accounts_of(tries.state)[i].1.storage_root != EMPTY_TRIE_HASH,
        traces[t].nodes_used_by_txn.storage_accesses@[n].0.1 == accounts_of(tries.state)[i].0.1,
        !tries.storage@.contains_key(accounts_of(tries.state)[i].0.1),
    ensures
        pre_state_errors(pre_image, code_supplied, raw_traces, tries, traces).contains(
            TraceVerificationErrorView::MissingStorageTrieForAccount(
                address_lookups(pre_image.state, raw_traces)[accounts_of(tries.state)[i].0],
                accounts_of(tries.state)[i].0,
                accounts_of(tries.state)[i].1.storage_root,
            ),
        ),
{
    let accounts = accounts_of(tries.state);
    let addrs = address_lookups(pre_image.state, raw_traces);
    let accessed = storage_tries_accessed(traces);
    let supplied = tries.storage@.dom();
    assert(reaches_storage_of(traces[t], accounts[i].0.1));
    lemma_storage_error_is_among(accounts, accessed, supplied, addrs, i);
    let errs = storage_errors(accounts, accessed, supplied, addrs);
    let err = TraceVerificationErrorView::MissingStorageTrieForAccount(
        addrs[accounts[i].0],
        accounts[i].0,
        accounts[i].1.storage_root,
    );
    let e = choose|e: int| 0 <= e < errs.len() && errs[e] == err;
    let before = code_errors(
        accounts_of(pre_image.state),
        contract_code_accessed(traces),
        code_supplied,
        addrs,
    );
    let all = pre_state_errors(pre_image, code_supplied, raw_traces, tries, traces);
    assert((before + errs)[before.len() + e] == err);
    assert(all[before.len() + e] == err);
}

pub(crate) proof fn lemma_code_error_is_among(
    accounts: Seq<(Nibbles, AccountRlp)>,
    accessed: Set<CodeHash>,
    supplied: Set<CodeHash>,
    addrs: Map<Nibbles, HashLookupAttempt<Address>>,
    i: int,
)
    requires
        0 <= i < accounts.len(),
        accounts[i].1.code_hash != EMPTY_CODE_HASH,
        accessed.contains(accounts[i].1.code_hash),
        !supplied.contains(accounts[i].1.code_hash),
    ensures
        code_errors(accounts, accessed, supplied, addrs).contains(
            TraceVerificationErrorView::MissingContractCodeForAccount(
                addrs[accounts[i].0],
                accounts[i].0,
                accounts[i].1.code_hash,
            ),
        ),
    decreases accounts.len(),
{
    let errs = code_errors(accounts, accessed, supplied, addrs);
    let rest = accounts.drop_last();
    let before = code_errors(rest, accessed, supplied, addrs);
    if i < rest.len() {
        lemma_code_error_is_among(rest, accessed, supplied, addrs, i);
        let e = choose|e: int|
            0 <= e < before.len() && before[e]
                == TraceVerificationErrorView::MissingContractCodeForAccount(
                addrs[accounts[i].0],
                accounts[i].0,
                accounts[i].1.code_hash,
            );
        assert(errs[e] == before[e]);
    } else {
        assert(errs.last() == TraceVerificationErrorView::MissingContractCodeForAccount(
            addrs[accounts[i].0],
            accounts[i].0,
            accounts[i].1.code_hash,
        ));
    }
}

pub(crate) proof fn lemma_storage_error_is_among(
    accounts: Seq<(Nibbles, AccountRlp)>,
    accessed: Set<HashedAccountAddr>,
    supplied: Set<HashedAccountAddr>,
    addrs: Map<Nibbles, HashLookupAttempt<Address>>,
    i: int,
)
    requires
        0 <= i < accounts.len(),
        accounts[i].1.storage_root != EMPTY_TRIE_HASH,
        accessed.contains(accounts[i].0.1),
        !supplied.contains(accounts[i].0.1),
    ensures
        storage_errors(accounts, accessed, supplied, addrs).contains(
            TraceVerificationErrorView::MissingStorageTrieForAccount(
                addrs[accounts[i].0],
                accounts[i].0,
                accounts[i].1.storage_root,
            ),
        ),
    decreases accounts.len(),
{
    let errs = storage_errors(accounts, accessed, supplied, addrs);
    let rest = accounts.drop_last();
    let before = storage_errors(rest, accessed, supplied, addrs);
    if i < rest.len() {
        lemma_storage_error_is_among(rest, accessed, supplied, addrs, i);
        let e = choose|e: int|
            0 <= e < before.len() && before[e]
                == TraceVerificationErrorView::MissingStorageTrieForAccount(
                addrs[accounts[i].0],
                accounts[i].0,
                accounts[i].1.storage_root,
            );
        assert(errs[e] == before[e]);
    } else {
        assert(errs.last() == TraceVerificationErrorView::MissingStorageTrieForAccount(
            addrs[accounts[i].0],
            accounts[i].0,
            accounts[i].1.storage_root,
        ));
    }
}

/// The leaf keys of a trie are hashes where the keys fit and each leaf's key takes thirty-two bytes.
pub proof fn law_leaf_keys_are_hashes(trie: PartialTrie)
    ensures
        leaf_keys_are_hashes(trie) <==> keys_fit(trie) && forall|i: int|
            0 <= i < leaves_of(trie).len() ==> ((#[trigger] leaves_of(trie)[i]).0.0 + 1) / 2 == 32,
{
}

/// The check of the code can be made exactly where the state trie holds accounts and a lookup is there
/// for each that would be reported.
pub proof fn law_when_code_can_be_checked(
    state: PartialTrie,
    traces: Seq<ProcessedTxnInfo>,
    supplied: Set<CodeHash>,
    addrs: Map<Nibbles, HashLookupAttempt<Address>>,
)
    ensures
        code_is_checkable(state, traces, supplied, addrs) <==> holds_accounts(state) && forall|i: int|
            0 <= i < accounts_of(state).len() && !addrs.contains_key(
                (#[trigger] accounts_of(state)[i]).0,
            ) ==> {
                let hash = accounts_of(state)[i].1.code_hash;
                ||| hash == EMPTY_CODE_HASH
                ||| !contract_code_accessed(traces).contains(hash)
                ||| supplied.contains(hash)
            },
{
}

/// The check of the storage tries can be made exactly where the state trie holds accounts under
/// hashes, the accessed keys are hashes and a lookup is there for each account that would be reported.
pub proof fn law_when_storage_can_be_checked(
    pre_image: PartialTriePreImages,
    traces: Seq<ProcessedTxnInfo>,
    addrs: Map<Nibbles, HashLookupAttempt<Address>>,
)
    ensures
        storage_is_checkable(pre_image, traces, addrs) <==> {
            &&& holds_accounts(pre_image.state)
            &&& leaf_keys_are_hashes(pre_image.state)
            &&& forall|t: int|
                0 <= t < traces.len() ==> storage_keys_are_hashes(#[trigger] traces[t])
            &&& forall|i: int|
                0 <= i < accounts_of(pre_image.state).len() && !addrs.contains_key(
                    (#[trigger] accounts_of(pre_image.state)[i]).0,
                ) ==> {
                    let (key, account) = accounts_of(pre_image.state)[i];
                    ||| account.storage_root == EMPTY_TRIE_HASH
                    ||| !storage_tries_accessed(traces).contains(key.1)
                    ||| pre_image.storage@.contains_key(key.1)
                }
        },
{
}

/// The checks before a block can be made exactly where all keys of the tries are hashes, the state
/// trie holds accounts and the storage tries can be checked.
pub proof fn law_when_the_pre_state_can_be_checked(
    pre_image: PartialTriePreImages,
    raw_traces: Seq<TxnInfo>,
    tries: PartialTriePreImages,
    traces: Seq<ProcessedTxnInfo>,
)
    ensures
        pre_state_is_checkable(pre_image, raw_traces, tries, traces) <==> {
            &&& holds_accounts(pre_image.state)
            &&& leaf_keys_are_hashes(pre_image.state)
            &&& forall|h_addr: HashedAccountAddr| #[trigger]
                pre_image.storage@.dom().contains(h_addr) ==> leaf_keys_are_hashes(
                    pre_image.storage@[h_addr],
                )
            &&& storage_is_checkable(tries, traces, address_lookups(pre_image.state, raw_traces))
        },
        pre_images_are_hashed(pre_image) <==> {
            &&& leaf_keys_are_hashes(pre_image.state)
            &&& forall|h_addr: HashedAccountAddr| #[trigger]
                pre_image.storage@.dom().contains(h_addr) ==> leaf_keys_are_hashes(
                    pre_image.storage@[h_addr],
                )
        },
{
    if forall|h_addr: HashedAccountAddr| #[trigger]
        pre_image.storage@.dom().contains(h_addr) ==> leaf_keys_are_hashes(
            pre_image.storage@[h_addr],
        ) {
        assert forall|h_addr: HashedAccountAddr| #[trigger]
            pre_image.storage@.contains_key(h_addr) implies leaf_keys_are_hashes(
            pre_image.storage@[h_addr],
        ) by {
            assert(pre_image.storage@.dom().contains(h_addr));
        }
    }
    if pre_images_are_hashed(pre_image) {
        assert forall|h_addr: HashedAccountAddr| #[trigger]
            pre_image.storage@.dom().contains(h_addr) implies leaf_keys_are_hashes(
            pre_image.storage@[h_addr],
        ) by {
            assert(pre_image.storage@.contains_key(h_addr));
        }
    }
}

/// What the checks before a block report comes in five parts: accounts of the pre-image without code,
/// accounts of the tries without storage trie, unused state nodes, unused storage nodes, and storage
/// nodes used by other accounts only.
pub proof fn law_parts_of_the_pre_state_report(
    pre_image: PartialTriePreImages,
    code_supplied: Set<CodeHash>,
    raw_traces: Seq<TxnInfo>,
    tries: PartialTriePreImages,
    traces: Seq<ProcessedTxnInfo>,
    parts: Seq<Seq<TraceVerificationErrorView>>,
)
    requires
        parts.len() == 5,
        parts[0] == code_errors(
            accounts_of(pre_image.state),
            contract_code_accessed(traces),
            code_supplied,
            address_lookups(pre_image.state, raw_traces),
        ),
        parts[1] == storage_errors(
            accounts_of(tries.state),
            storage_tries_accessed(traces),
            tries.storage@.dom(),
            address_lookups(pre_image.state, raw_traces),
        ),
        parts[2] == unused_state_errors(
            unknown_keys(address_lookups(pre_image.state, raw_traces)),
        ),
        parts[3] == unused_storage_errors(
            unknown_keys(slot_lookups(pre_image.storage@, raw_traces)),
        ),
        parts[4] == unused_storage_errors(
            misplaced_leaves(
                pre_image.storage@,
                slot_lookups(pre_image.storage@, raw_traces),
                raw_traces,
            ),
        ),
    ensures
        pre_state_errors(pre_image, code_supplied, raw_traces, tries, traces) == parts.flatten(),
{
    reveal_with_fuel(Seq::flatten, 6);
    let tail = parts.drop_first();
    assert(tail.drop_first().drop_first().drop_first().drop_first().len() == 0);
    assert(parts.flatten() =~= parts[0] + (parts[1] + (parts[2] + (parts[3] + (parts[4] + Seq::<
        TraceVerificationErrorView,
    >::empty())))));
}

/// Unused nodes are reported exactly where there are any, all of them in one error.
pub proof fn law_unused_nodes_are_one_error(
    state: Seq<HashedKeyAndUnhashedLookup<Address>>,
    storage: Seq<HashedKeyAndUnhashedLookup<StorageAddr>>,
)
    ensures
        unused_state_errors(state).len() <= 1,
        unused_state_errors(state).len() == 1 <==> state.len() > 0,
        state.len() > 0 ==> unused_state_errors(state)[0]
            == TraceVerificationErrorView::UnusedStateNodesInPreImage(state),
        unused_storage_errors(storage).len() <= 1,
        unused_storage_errors(storage).len() == 1 <==> storage.len() > 0,
        storage.len() > 0 ==> unused_storage_errors(storage)[0]
            == TraceVerificationErrorView::UnusedStorageNodesInPreImage(storage),
{
}

proof fn lemma_unknown_among<T>(lookups: Map<Nibbles, HashLookupAttempt<T>>, keys: Seq<Nibbles>)
    ensures
        unknown_among(lookups, keys) == keys.filter_map(
            |key: Nibbles|
                if lookups[key] == HashLookupAttempt::<T>(None) {
                    Some(HashedKeyAndUnhashedLookup { k: HashLookupAttempt::<T>(None), hashed: key })
                } else {
                    None
                },
        ),
    decreases keys.len(),
{
    if keys.len() > 0 {
        lemma_unknown_among(lookups, keys.drop_last());
    }
}

/// The keys without a known origin are listed, in their order, with the unknown origin.
pub proof fn law_keys_of_unknown_origin<T>(lookups: Map<Nibbles, HashLookupAttempt<T>>)
    ensures
        unknown_keys(lookups) == in_order(lookups.dom()).filter_map(
            |key: Nibbles|
                if lookups[key] == HashLookupAttempt::<T>(None) {
                    Some(HashedKeyAndUnhashedLookup { k: HashLookupAttempt::<T>(None), hashed: key })
                } else {
                    None
                },
        ),
{
    lemma_unknown_among(lookups, in_order(lookups.dom()));
}

/// Of the leaves of an account's storage trie those are misplaced whose slot is known, but which are
/// not reached in that account.
pub proof fn law_misplaced_leaves_of_an_account(
    h_addr: HashedAccountAddr,
    leaves: Seq<(Nibbles, Seq<u8>)>,
    lookups: Map<Nibbles, HashLookupAttempt<StorageAddr>>,
    reached: Set<(HashedAccountAddr, H256)>,
)
    ensures
        misplaced_among(h_addr, leaves, lookups, reached) == leaves.filter_map(
            |leaf: (Nibbles, Seq<u8>)|
                if lookups[leaf.0].0 is Some && !reached.contains((h_addr, leaf.0.1)) {
                    Some(HashedKeyAndUnhashedLookup { k: lookups[leaf.0], hashed: leaf.0 })
                } else {
                    None
                },
        ),
    decreases leaves.len(),
{
    if leaves.len() > 0 {
        law_misplaced_leaves_of_an_account(h_addr, leaves.drop_last(), lookups, reached);
    }
}

/// Misplaced leaves are gathered account by account, by ascending hashed address.
pub proof fn law_misplaced_leaves_by_account(
    storage: Map<HashedAccountAddr, PartialTrie>,
    h_addrs: Seq<HashedAccountAddr>,
    h_addr: HashedAccountAddr,
    lookups: Map<Nibbles, HashLookupAttempt<StorageAddr>>,
    traces: Seq<TxnInfo>,
)
    ensures
        misplaced_leaves(storage, lookups, traces) == misplaced_in(
            storage,
            in_order(storage.dom()),
            lookups,
            leaves_reached(traces),
        ),
        misplaced_in(storage, Seq::empty(), lookups, leaves_reached(traces)).len() == 0,
        misplaced_in(storage, h_addrs.push(h_addr), lookups, leaves_reached(traces))
            == misplaced_in(storage, h_addrs, lookups, leaves_reached(traces)) + misplaced_among(
            h_addr,
            leaves_of(storage[h_addr]),
            lookups,
            leaves_reached(traces),
        ),
{
    assert(h_addrs.push(h_addr).drop_last() =~= h_addrs);
}

/// A leaf is reached where, in some transaction, an account whose address has the one hash reads or
/// writes a slot that has the other.
pub proof fn law_leaves_reached_by_the_block(
    traces: Seq<TxnInfo>,
    h_addr: HashedAccountAddr,
    h_slot: H256,
)
    ensures
        leaves_reached(traces).contains((h_addr, h_slot)) <==> exists|
            t: int,
            addr: Address,
            slot: StorageAddr,
        |
            0 <= t < traces.len() && #[trigger] traces[t].traces@.contains_key(addr)
                && hashed_address(addr) == h_addr && #[trigger] hashed_slot(slot) == h_slot && ((
            traces[t].traces@[addr].storage_read is Some
                && traces[t].traces@[addr].storage_read->0@.contains(slot)) || (
            traces[t].traces@[addr].storage_written is Some
                && traces[t].traces@[addr].storage_written->0@.contains_key(slot))),
{
    if leaves_reached(traces).contains((h_addr, h_slot)) {
        let t = choose|t: int|
            0 <= t < traces.len() && txn_reaches_leaf(#[trigger] traces[t], h_addr, h_slot);
        let addr = choose|addr: Address| #[trigger]
            traces[t].traces@.contains_key(addr) && hashed_address(addr) == h_addr
                && trace_reaches_hash(traces[t].traces@[addr], h_slot);
        let slot = choose|slot: StorageAddr| #[trigger]
            trace_reaches_slot(traces[t].traces@[addr], slot) && hashed_slot(slot) == h_slot;
        assert(traces[t].traces@.contains_key(addr) && hashed_slot(slot) == h_slot);
    }
    assert forall|t: int, addr: Address, slot: StorageAddr|
        0 <= t < traces.len() && #[trigger] traces[t].traces@.contains_key(addr) && hashed_address(
            addr,
        ) == h_addr && #[trigger] hashed_slot(slot) == h_slot && ((
        traces[t].traces@[addr].storage_read is Some
            && traces[t].traces@[addr].storage_read->0@.contains(slot)) || (
        traces[t].traces@[addr].storage_written is Some
            && traces[t].traces@[addr].storage_written->0@.contains_key(
            slot,
        ))) implies leaves_reached(traces).contains((h_addr, h_slot)) by {
        assert(trace_reaches_slot(traces[t].traces@[addr], slot));
        assert(trace_reaches_hash(traces[t].traces@[addr], h_slot));
        assert(txn_reaches_leaf(traces[t], h_addr, h_slot));
    }
}

/// A slot is used where, in some transaction, some account reads or writes it.
pub proof fn law_slots_used_by_the_block(traces: Seq<TxnInfo>, slot: StorageAddr)
    ensures
        slots_used(traces).contains(slot) <==> exists|t: int, addr: Address|
            0 <= t < traces.len() && #[trigger] traces[t].traces@.contains_key(addr) && ((
            traces[t].traces@[addr].storage_read is Some
                && traces[t].traces@[addr].storage_read->0@.contains(slot)) || (
            traces[t].traces@[addr].storage_written is Some
                && traces[t].traces@[addr].storage_written->0@.contains_key(slot))),
{
    if slots_used(traces).contains(slot) {
        let t = choose|t: int|
            0 <= t < traces.len() && txn_reaches_slot(#[trigger] traces[t], slot);
        let addr = choose|addr: Address| #[trigger]
            traces[t].traces@.contains_key(addr) && trace_reaches_slot(
                traces[t].traces@[addr],
                slot,
            );
        assert(traces[t].traces@.contains_key(addr));
    }
    assert forall|t: int, addr: Address|
        0 <= t < traces.len() && #[trigger] traces[t].traces@.contains_key(addr) && ((
        traces[t].traces@[addr].storage_read is Some
            && traces[t].traces@[addr].storage_read->0@.contains(slot)) || (
        traces[t].traces@[addr].storage_written is Some
            && traces[t].traces@[addr].storage_written->0@.contains_key(
            slot,
        ))) implies slots_used(traces).contains(slot) by {
        assert(trace_reaches_slot(traces[t].traces@[addr], slot));
        assert(txn_reaches_slot(traces[t], slot));
    }
}

/// The storage tries have been looked up where their leaf keys are hashes and each has a lookup.
pub proof fn law_when_storage_is_looked_up(
    storage: Map<HashedAccountAddr, PartialTrie>,
    lookups: Map<Nibbles, HashLookupAttempt<StorageAddr>>,
)
    ensures
        storage_is_looked_up(storage, lookups) <==> forall|h_addr: HashedAccountAddr| #[trigger]
            storage.dom().contains(h_addr) ==> {
                &&& leaf_keys_are_hashes(storage[h_addr])
                &&& forall|i: int|
                    0 <= i < leaves_of(storage[h_addr]).len() ==> lookups.contains_key(
                        (#[trigger] leaves_of(storage[h_addr])[i]).0,
                    )
            },
{
    if storage_is_looked_up(storage, lookups) {
        assert forall|h_addr: HashedAccountAddr| #[trigger] storage.dom().contains(h_addr) implies {
            &&& leaf_keys_are_hashes(storage[h_addr])
            &&& forall|i: int|
                0 <= i < leaves_of(storage[h_addr]).len() ==> lookups.contains_key(
                    (#[trigger] leaves_of(storage[h_addr])[i]).0,
                )
        } by {
            assert(storage.contains_key(h_addr));
            assert forall|i: int| 0 <= i < leaves_of(storage[h_addr]).len() implies lookups.contains_key(
                (#[trigger] leaves_of(storage[h_addr])[i]).0,
            ) by {
                let key = leaves_of(storage[h_addr])[i].0;
                assert(has_leaf(storage[h_addr], key));
                assert(has_storage_leaf(storage, key));
            }
        }
    }
    if forall|h_addr: HashedAccountAddr| #[trigger]
        storage.dom().contains(h_addr) ==> {
            &&& leaf_keys_are_hashes(storage[h_addr])
            &&& forall|i: int|
                0 <= i < leaves_of(storage[h_addr]).len() ==> lookups.contains_key(
                    (#[trigger] leaves_of(storage[h_addr])[i]).0,
                )
        } {
        assert forall|h_addr: HashedAccountAddr| #[trigger]
            storage.contains_key(h_addr) implies leaf_keys_are_hashes(storage[h_addr]) by {
            assert(storage.dom().contains(h_addr));
        }
        assert forall|key: Nibbles| #[trigger] has_storage_leaf(
            storage,
            key,
        ) implies lookups.contains_key(key) by {
            let h_addr = choose|h_addr: HashedAccountAddr| #[trigger]
                storage.contains_key(h_addr) && has_leaf(storage[h_addr], key);
            assert(storage.dom().contains(h_addr));
            let i = choose|i: int|
                0 <= i < leaves_of(storage[h_addr]).len() && (
                #[trigger] leaves_of(storage[h_addr])[i]).0 == key;
        }
    }
}

/// Of pairs with the same hash the last one counts, and a hash that no pair has is not there.
pub proof fn law_last_origin_counts<T>(pairs: Seq<(H256, T)>, hash: H256)
    ensures
        lookup(index(pairs), hash).0 is None <==> forall|i: int|
            0 <= i < pairs.len() ==> (#[trigger] pairs[i]).0 != hash,
        lookup(index(pairs), hash).0 matches Some(origin) ==> exists|i: int|
            0 <= i < pairs.len() && #[trigger] pairs[i] == (hash, origin) && forall|j: int|
                i < j < pairs.len() ==> (#[trigger] pairs[j]).0 != hash,
    decreases pairs.len(),
{
    if pairs.len() > 0 {
        let rest = pairs.drop_last();
        law_last_origin_counts(rest, hash);
        assert(index(pairs) == index(rest).insert(pairs.last().0, pairs.last().1));
        let n = pairs.len() - 1;
        if pairs[n].0 == hash {
            assert(pairs[n] == (hash, pairs[n].1));
        } else {
            if lookup(index(rest), hash).0 is Some {
                let origin = lookup(index(rest), hash).0->0;
                let i = choose|i: int|
                    0 <= i < rest.len() && #[trigger] rest[i] == (hash, origin) && forall|j: int|
                        i < j < rest.len() ==> (#[trigger] rest[j]).0 != hash;
                assert(pairs[i] == rest[i]);
                assert forall|j: int| i < j < pairs.len() implies (#[trigger] pairs[j]).0 != hash by {
                    if j < n {
                        assert(rest[j] == pairs[j]);
                    }
                }
            } else {
                assert forall|i: int| 0 <= i < pairs.len() implies (#[trigger] pairs[i]).0 != hash by {
                    if i < n {
                        assert(rest[i] == pairs[i]);
                    }
                }
            }
        }
    }
}

/// A transaction adds to the known addresses those that it touches, each with its hash, in ascending
/// order.
pub proof fn law_known_addresses_grow(traces: Seq<TxnInfo>, txn: TxnInfo, added: Seq<(H256, Address)>)
    requires
        added.len() == in_order(txn.traces@.dom()).len(),
        forall|i: int|
            0 <= i < added.len() ==> (#[trigger] added[i]).1 == in_order(txn.traces@.dom())[i]
                && added[i].0 == hashed_address(added[i].1),
    ensures
        known_addresses(Seq::empty()).len() == 0,
        known_addresses(traces.push(txn)) == known_addresses(traces) + added,
{
    assert(traces.push(txn).drop_last() =~= traces);
    assert(with_hashed_addresses(in_order(txn.traces@.dom())) =~= added);
}

/// A transaction adds to the known slots those that it reaches, each with its hash, in their order.
pub proof fn law_known_slots_grow(traces: Seq<TxnInfo>, txn: TxnInfo, added: Seq<(H256, StorageAddr)>)
    requires
        added.len() == slots_of_txn(txn).len(),
        forall|i: int|
            0 <= i < added.len() ==> (#[trigger] added[i]).1 == slots_of_txn(txn)[i] && added[i].0
                == hashed_slot(added[i].1),
    ensures
        known_slots(Seq::empty()).len() == 0,
        known_slots(traces.push(txn)) == known_slots(traces) + added,
{
    assert(traces.push(txn).drop_last() =~= traces);
    assert(with_hashed_slots(slots_of_txn(txn)) =~= added);
}

/// The slots that a transaction reaches come account by account, by ascending address.
pub proof fn law_slots_come_by_account(
    txn: TxnInfo,
    traces: Map<Address, TxnTrace>,
    addrs: Seq<Address>,
    addr: Address,
)
    ensures
        slots_of_txn(txn) == slots_of_accounts(txn.traces@, in_order(txn.traces@.dom())),
        slots_of_accounts(traces, Seq::empty()).len() == 0,
        slots_of_accounts(traces, addrs.push(addr)) == slots_of_accounts(traces, addrs)
            + slots_of_trace(traces[addr]),
{
    assert(addrs.push(addr).drop_last() =~= addrs);
}

/// The slots that a trace reaches are those read, in their order, then those written, in ascending
/// order.
pub proof fn law_slots_read_come_before_slots_written(trace: TxnTrace)
    ensures
        trace.storage_read is None && trace.storage_written is None ==> slots_of_trace(trace).len()
            == 0,
        trace.storage_read matches Some(read) ==> read@.is_prefix_of(slots_of_trace(trace)),
        trace.storage_written matches Some(written) ==> in_order(
            written@.dom(),
        ).is_suffix_of(slots_of_trace(trace)),
        slots_of_trace(trace).len() == (match trace.storage_read {
            Some(read) => read@.len(),
            None => 0,
        }) + (match trace.storage_written {
            Some(written) => in_order(written@.dom()).len(),
            None => 0,
        }),
{
    if let Some(read) = trace.storage_read {
        assert(slots_of_trace(trace).subrange(0, read@.len() as int) =~= read@);
    }
    if let Some(written) = trace.storage_written {
        let slots = slots_of_trace(trace);
        let w = in_order(written@.dom());
        assert(slots.subrange(slots.len() - w.len(), slots.len() as int) =~= w);
    }
}

proof fn lemma_known_addresses(traces: Seq<TxnInfo>, pair: (H256, Address))
    ensures
        known_addresses(traces).contains(pair) <==> pair.0 == hashed_address(pair.1) && exists|t: int|
            0 <= t < traces.len() && (#[trigger] traces[t]).traces@.contains_key(pair.1),
    decreases traces.len(),
{
    if traces.len() > 0 {
        let rest = traces.drop_last();
        let last = traces.last();
        let n = traces.len() - 1;
        lemma_known_addresses(rest, pair);
        let addrs = in_order(last.traces@.dom());
        let added = with_hashed_addresses(addrs);
        lemma_addresses_are_ordered();
        lemma_in_order(last.traces@.dom());
        assert(addrs.to_set().contains(pair.1) == last.traces@.dom().contains(pair.1));
        let all = known_addresses(traces);
        let before = known_addresses(rest);
        if all.contains(pair) {
            let e = choose|e: int| 0 <= e < all.len() && all[e] == pair;
            if e < before.len() {
                assert(before[e] == pair);
                let t = choose|t: int|
                    0 <= t < rest.len() && (#[trigger] rest[t]).traces@.contains_key(pair.1);
                assert(traces[t].traces@.contains_key(pair.1));
            } else {
                assert(addrs[e - before.len()] == pair.1);
                assert(traces[n].traces@.contains_key(pair.1));
            }
        }
        if pair.0 == hashed_address(pair.1) && exists|t: int|
            0 <= t < traces.len() && (#[trigger] traces[t]).traces@.contains_key(pair.1) {
            let t = choose|t: int|
                0 <= t < traces.len() && (#[trigger] traces[t]).traces@.contains_key(pair.1);
            if t < n {
                assert(rest[t] == traces[t]);
                let e = choose|e: int| 0 <= e < before.len() && before[e] == pair;
                assert(all[e] == pair);
            } else {
                let i = choose|i: int| 0 <= i < addrs.len() && addrs[i] == pair.1;
                assert(added[i] == pair);
                assert(all[before.len() + i] == pair);
            }
        }
    }
}

/// A lookup is there for exactly the leaf keys of the state trie; it tells an address that some
/// transaction touches and whose hash is the key, and tells none only where there is no such address.
pub proof fn law_what_is_told_of_an_address(state: PartialTrie, traces: Seq<TxnInfo>, key: Nibbles)
    ensures
        address_lookups(state, traces).contains_key(key) <==> exists|i: int|
            0 <= i < leaves_of(state).len() && (#[trigger] leaves_of(state)[i]).0 == key,
        address_lookups(state, traces).contains_key(key) ==> match address_lookups(
            state,
            traces,
        )[key].0 {
            Some(addr) => hashed_address(addr) == key.1 && exists|t: int|
                0 <= t < traces.len() && (#[trigger] traces[t]).traces@.contains_key(addr),
            None => forall|t: int, addr: Address|
                0 <= t < traces.len() && #[trigger] traces[t].traces@.contains_key(addr)
                    ==> hashed_address(addr) != key.1,
        },
{
    let pairs = known_addresses(traces);
    law_last_origin_counts(pairs, key.1);
    match lookup(index(pairs), key.1).0 {
        Some(addr) => {
            assert(pairs.contains((key.1, addr)));
            lemma_known_addresses(traces, (key.1, addr));
        },
        None => {
            assert forall|t: int, addr: Address|
                0 <= t < traces.len() && #[trigger] traces[t].traces@.contains_key(
                    addr,
                ) implies hashed_address(addr) != key.1 by {
                lemma_known_addresses(traces, (hashed_address(addr), addr));
                let pair = (hashed_address(addr), addr);
                let e = choose|e: int| 0 <= e < pairs.len() && pairs[e] == pair;
                assert(pairs[e].0 != key.1);
            }
        },
    }
}

proof fn lemma_slots_of_accounts(
    traces: Map<Address, TxnTrace>,
    addrs: Seq<Address>,
    slot: StorageAddr,
)
    ensures
        slots_of_accounts(traces, addrs).contains(slot) <==> exists|i: int|
            0 <= i < addrs.len() && trace_reaches_slot(traces[#[trigger] addrs[i]], slot),
    decreases addrs.len(),
{
    if addrs.len() > 0 {
        let rest = addrs.drop_last();
        let n = addrs.len() - 1;
        lemma_slots_of_accounts(traces, rest, slot);
        lemma_slots_of_trace(traces[addrs.last()], slot);
        let before = slots_of_accounts(traces, rest);
        let added = slots_of_trace(traces[addrs.last()]);
        let all = slots_of_accounts(traces, addrs);
        if all.contains(slot) {
            let e = choose|e: int| 0 <= e < all.len() && all[e] == slot;
            if e < before.len() {
                assert(before[e] == slot);
                let i = choose|i: int|
                    0 <= i < rest.len() && trace_reaches_slot(traces[#[trigger] rest[i]], slot);
                assert(trace_reaches_slot(traces[addrs[i]], slot));
            } else {
                assert(added[e - before.len()] == slot);
                assert(trace_reaches_slot(traces[addrs[n]], slot));
            }
        }
        if exists|i: int|
            0 <= i < addrs.len() && trace_reaches_slot(traces[#[trigger] addrs[i]], slot) {
            let i = choose|i: int|
                0 <= i < addrs.len() && trace_reaches_slot(traces[#[trigger] addrs[i]], slot);
            if i < n {
                assert(rest[i] == addrs[i]);
                let e = choose|e: int| 0 <= e < before.len() && before[e] == slot;
                assert(all[e] == slot);
            } else {
                let e = choose|e: int| 0 <= e < added.len() && added[e] == slot;
                assert(all[before.len() + e] == slot);
            }
        }
    }
}

proof fn lemma_known_slots(traces: Seq<TxnInfo>, pair: (H256, StorageAddr))
    ensures
        known_slots(traces).contains(pair) <==> pair.0 == hashed_slot(pair.1) && exists|t: int|
            0 <= t < traces.len() && txn_reaches_slot(#[trigger] traces[t], pair.1),
    decreases traces.len(),
{
    if traces.len() > 0 {
        let rest = traces.drop_last();
        let last = traces.last();
        let n = traces.len() - 1;
        lemma_known_slots(rest, pair);
        let addrs = in_order(last.traces@.dom());
        let slots = slots_of_txn(last);
        let added = with_hashed_slots(slots);
        lemma_addresses_are_ordered();
        lemma_in_order(last.traces@.dom());
        lemma_slots_of_accounts(last.traces@, addrs, pair.1);
        assert(slots.contains(pair.1) == txn_reaches_slot(last, pair.1)) by {
            if slots.contains(pair.1) {
                let i = choose|i: int|
                    0 <= i < addrs.len() && trace_reaches_slot(
                        last.traces@[#[trigger] addrs[i]],
                        pair.1,
                    );
                assert(addrs.to_set().contains(addrs[i]));
                assert(last.traces@.contains_key(addrs[i]));
            }
            if txn_reaches_slot(last, pair.1) {
                let addr = choose|addr: Address| #[trigger]
                    last.traces@.contains_key(addr) && trace_reaches_slot(
                        last.traces@[addr],
                        pair.1,
                    );
                assert(addrs.to_set().contains(addr));
                let i = choose|i: int| 0 <= i < addrs.len() && addrs[i] == addr;
                assert(trace_reaches_slot(last.traces@[addrs[i]], pair.1));
            }
        }
        let all = known_slots(traces);
        let before = known_slots(rest);
        if all.contains(pair) {
            let e = choose|e: int| 0 <= e < all.len() && all[e] == pair;
            if e < before.len() {
                assert(before[e] == pair);
                let t = choose|t: int|
                    0 <= t < rest.len() && txn_reaches_slot(#[trigger] rest[t], pair.1);
                assert(txn_reaches_slot(traces[t], pair.1));
            } else {
                assert(slots[e - before.len()] == pair.1);
                assert(txn_reaches_slot(traces[n], pair.1));
            }
        }
        if pair.0 == hashed_slot(pair.1) && exists|t: int|
            0 <= t < traces.len() && txn_reaches_slot(#[trigger] traces[t], pair.1) {
            let t = choose|t: int|
                0 <= t < traces.len() && txn_reaches_slot(#[trigger] traces[t], pair.1);
            if t < n {
                assert(rest[t] == traces[t]);
                let e = choose|e: int| 0 <= e < before.len() && before[e] == pair;
                assert(all[e] == pair);
            } else {
                let i = choose|i: int| 0 <= i < slots.len() && slots[i] == pair.1;
                assert(added[i] == pair);
                assert(all[before.len() + i] == pair);
            }
        }
    }
}

/// A lookup is there for exactly the leaf keys of the storage tries; it tells a slot that the block
/// uses and whose hash is the key, and tells none only where there is no such slot.
pub proof fn law_what_is_told_of_a_slot(
    storage: Map<HashedAccountAddr, PartialTrie>,
    traces: Seq<TxnInfo>,
    key: Nibbles,
)
    ensures
        slot_lookups(storage, traces).contains_key(key) <==> exists|h_addr: HashedAccountAddr, i: int|
            #[trigger] storage.contains_key(h_addr) && 0 <= i < leaves_of(storage[h_addr]).len() && (
            #[trigger] leaves_of(storage[h_addr])[i]).0 == key,
        slot_lookups(storage, traces).contains_key(key) ==> match slot_lookups(
            storage,
            traces,
        )[key].0 {
            Some(slot) => hashed_slot(slot) == key.1 && slots_used(traces).contains(slot),
            None => forall|slot: StorageAddr| #[trigger]
                slots_used(traces).contains(slot) ==> hashed_slot(slot) != key.1,
        },
{
    if has_storage_leaf(storage, key) {
        let h_addr = choose|h_addr: HashedAccountAddr| #[trigger]
            storage.contains_key(h_addr) && has_leaf(storage[h_addr], key);
        let i = choose|i: int|
            0 <= i < leaves_of(storage[h_addr]).len() && (
            #[trigger] leaves_of(storage[h_addr])[i]).0 == key;
        assert(storage.contains_key(h_addr) && leaves_of(storage[h_addr])[i].0 == key);
    }
    assert forall|h_addr: HashedAccountAddr, i: int| #[trigger]
        storage.contains_key(h_addr) && 0 <= i < leaves_of(storage[h_addr]).len() && (
        #[trigger] leaves_of(storage[h_addr])[i]).0 == key implies has_storage_leaf(storage, key) by {
        assert(has_leaf(storage[h_addr], key));
    }
    let pairs = known_slots(traces);
    law_last_origin_counts(pairs, key.1);
    match lookup(index(pairs), key.1).0 {
        Some(slot) => {
            assert(pairs.contains((key.1, slot)));
            lemma_known_slots(traces, (key.1, slot));
        },
        None => {
            assert forall|slot: StorageAddr| #[trigger]
                slots_used(traces).contains(slot) implies hashed_slot(slot) != key.1 by {
                let pair = (hashed_slot(slot), slot);
                lemma_known_slots(traces, pair);
                let e = choose|e: int| 0 <= e < pairs.len() && pairs[e] == pair;
                assert(pairs[e].0 != key.1);
            }
        },
    }
}

} // verus!
