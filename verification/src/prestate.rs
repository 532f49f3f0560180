//! Checks of the tries before a block: what the accounts in them refer to must have been supplied,
//! and the block must reach all of their nodes.

use crate::errors::{append_errors, views, TraceVerificationError, TraceVerificationErrorView};
use crate::order::{insert_keys, keys_in_order};
use crate::reverse_hash::{
    address_lookups, create_addr_to_hashed_addr_mapping, has_leaf, leaf_keys_are_hashes,
    pre_images_are_hashed, slot_lookups, HashLookupAttempt, PartialTriePreImages,
    ReverseHashMapping,
};
use crate::trace::{
    contract_code_accessed, get_all_contract_code_hashes_that_are_accessed,
    get_all_storage_tries_that_are_accessed, storage_keys_are_hashes, storage_tries_accessed,
    ProcessedTxnInfo, TxnInfo,
};
use crate::trie::{
    accounts_of, check_keys_fit, get_leaf_vals_from_trie, get_leaf_vals_from_trie_and_decode,
    holds_accounts, leaf_view, leaves_of,
};
use crate::types::{
    fills_hash, words_equal, AccountRlp, Address, CodeHash, HashedAccountAddr, Nibbles,
    EMPTY_CODE_HASH, EMPTY_TRIE_HASH,
};
use crate::unused::{
    law_used_state_passes, law_used_storage_passes, misplaced_leaves, state_is_used,
    storage_is_used, unknown_keys, unused_state_errors, unused_storage_errors,
    verify_all_pre_image_nodes_are_used, verify_all_pre_image_slots_are_used_by_their_accounts,
};
use eth_trie_utils::partial_trie::PartialTrie;
use std::collections::BTreeMap;
use std::collections::BTreeSet;
use vstd::prelude::*;

verus! {

/// Whether the account under this key has storage that the block reaches and that was not supplied.
pub open spec fn lacks_storage_trie(
    h_addr: Nibbles,
    account: AccountRlp,
    accessed: Set<HashedAccountAddr>,
    supplied: Set<HashedAccountAddr>,
) -> bool {
    &&& account.storage_root != EMPTY_TRIE_HASH
    &&& accessed.contains(h_addr.1)
    &&& !supplied.contains(h_addr.1)
}

/// Whether the account has code that the block runs and that was not supplied.
pub open spec fn lacks_contract_code(
    account: AccountRlp,
    accessed: Set<CodeHash>,
    supplied: Set<CodeHash>,
) -> bool {
    &&& account.code_hash != EMPTY_CODE_HASH
    &&& accessed.contains(account.code_hash)
    &&& !supplied.contains(account.code_hash)
}

/// The accounts that lack something, in order, as errors.
pub open spec fn errors_of(
    accounts: Seq<(Nibbles, AccountRlp)>,
    lacks: spec_fn((Nibbles, AccountRlp)) -> bool,
    error: spec_fn((Nibbles, AccountRlp)) -> TraceVerificationErrorView,
) -> Seq<TraceVerificationErrorView>
    decreases accounts.len(),
{
    if accounts.len() == 0 {
        Seq::empty()
    } else {
        let before = errors_of(accounts.drop_last(), lacks, error);
        if lacks(accounts.last()) {
            before.push(error(accounts.last()))
        } else {
            before
        }
    }
}

/// Whether the origin of every account that lacks something has been looked up.
pub open spec fn culprits_are_looked_up(
    accounts: Seq<(Nibbles, AccountRlp)>,
    lacks: spec_fn((Nibbles, AccountRlp)) -> bool,
    addrs: Map<Nibbles, HashLookupAttempt<Address>>,
) -> bool {
    forall|i: int|
        0 <= i < accounts.len() && lacks(#[trigger] accounts[i]) ==> addrs.contains_key(
            accounts[i].0,
        )
}

/// The error for an account that lacks its storage trie.
pub open spec fn storage_error(
    account: (Nibbles, AccountRlp),
    addrs: Map<Nibbles, HashLookupAttempt<Address>>,
) -> TraceVerificationErrorView {
    TraceVerificationErrorView::MissingStorageTrieForAccount(
        addrs[account.0],
        account.0,
        account.1.storage_root,
    )
}

/// The error for an account that lacks its code.
pub open spec fn code_error(
    account: (Nibbles, AccountRlp),
    addrs: Map<Nibbles, HashLookupAttempt<Address>>,
) -> TraceVerificationErrorView {
    TraceVerificationErrorView::MissingContractCodeForAccount(
        addrs[account.0],
        account.0,
        account.1.code_hash,
    )
}

/// Which accounts lack their storage trie.
pub open spec fn without_storage_trie(
    accessed: Set<HashedAccountAddr>,
    supplied: Set<HashedAccountAddr>,
) -> spec_fn((Nibbles, AccountRlp)) -> bool {
    |account: (Nibbles, AccountRlp)| lacks_storage_trie(account.0, account.1, accessed, supplied)
}

/// Which accounts lack their code.
pub open spec fn without_code(accessed: Set<CodeHash>, supplied: Set<CodeHash>) -> spec_fn(
    (Nibbles, AccountRlp),
) -> bool {
    |account: (Nibbles, AccountRlp)| lacks_contract_code(account.1, accessed, supplied)
}

/// The accounts that lack their storage trie, in order, as errors.
pub open spec fn storage_errors(
    accounts: Seq<(Nibbles, AccountRlp)>,
    accessed: Set<HashedAccountAddr>,
    supplied: Set<HashedAccountAddr>,
    addrs: Map<Nibbles, HashLookupAttempt<Address>>,
) -> Seq<TraceVerificationErrorView> {
    errors_of(
        accounts,
        without_storage_trie(accessed, supplied),
        |account: (Nibbles, AccountRlp)| storage_error(account, addrs),
    )
}

/// The accounts that lack their code, in order, as errors.
pub open spec fn code_errors(
    accounts: Seq<(Nibbles, AccountRlp)>,
    accessed: Set<CodeHash>,
    supplied: Set<CodeHash>,
    addrs: Map<Nibbles, HashLookupAttempt<Address>>,
) -> Seq<TraceVerificationErrorView> {
    errors_of(
        accounts,
        without_code(accessed, supplied),
        |account: (Nibbles, AccountRlp)| code_error(account, addrs),
    )
}

/// The accounts that lack their storage trie, as errors; `None` where the origin of one of them has
/// not been looked up.
pub fn find_missing_storage_tries(
    accounts: &Vec<(Nibbles, AccountRlp)>,
    accessed: &BTreeSet<HashedAccountAddr>,
    storage: &BTreeMap<HashedAccountAddr, PartialTrie>,
    addrs: &BTreeMap<Nibbles, HashLookupAttempt<Address>>,
) -> (found: Option<Vec<TraceVerificationError>>)
    ensures
        ({
            let lacks = without_storage_trie(accessed@, storage@.dom());
            match found {
                Some(errs) => {
                    &&& culprits_are_looked_up(accounts@, lacks, addrs@)
                    &&& views(errs@) == storage_errors(
                        accounts@,
                        accessed@,
                        storage@.dom(),
                        addrs@,
                    )
                },
                None => !culprits_are_looked_up(accounts@, lacks, addrs@),
            }
        }),
{
    let ghost lacks = without_storage_trie(accessed@, storage@.dom());
    let mut errs: Vec<TraceVerificationError> = Vec::new();
    for i in 0..accounts.len()
        invariant
            lacks == without_storage_trie(accessed@, storage@.dom()),
            culprits_are_looked_up(accounts@.take(i as int), lacks, addrs@),
            views(errs@) == storage_errors(
                accounts@.take(i as int),
                accessed@,
                storage@.dom(),
                addrs@,
            ),
    {
        assert(accounts@.take(i + 1).drop_last() == accounts@.take(i as int));
        let (h_addr, account) = accounts[i];
        assert(accounts@[i as int] == (h_addr, account));
        if !words_equal(&account.storage_root, &EMPTY_TRIE_HASH) && accessed.contains(&h_addr.1)
            && !storage.contains_key(&h_addr.1) {
            match addrs.get(&h_addr) {
                Some(attempt) => {
                    errs.push(
                        TraceVerificationError::MissingStorageTrieForAccount(
                            *attempt,
                            h_addr,
                            account.storage_root,
                        ),
                    );
                },
                None => {
                    return None;
                },
            }
        }
    }
    assert(accounts@.take(accounts@.len() as int) == accounts@);
    Some(errs)
}

/// The accounts that lack their code, as errors; `None` where the origin of one of them has not been
/// looked up.
pub fn find_missing_contract_code(
    accounts: &Vec<(Nibbles, AccountRlp)>,
    accessed: &BTreeSet<CodeHash>,
    supplied: &BTreeSet<CodeHash>,
    addrs: &BTreeMap<Nibbles, HashLookupAttempt<Address>>,
) -> (found: Option<Vec<TraceVerificationError>>)
    ensures
        ({
            let lacks = without_code(accessed@, supplied@);
            match found {
                Some(errs) => {
                    &&& culprits_are_looked_up(accounts@, lacks, addrs@)
                    &&& views(errs@) == code_errors(accounts@, accessed@, supplied@, addrs@)
                },
                None => !culprits_are_looked_up(accounts@, lacks, addrs@),
            }
        }),
{
    let ghost lacks = without_code(accessed@, supplied@);
    let mut errs: Vec<TraceVerificationError> = Vec::new();
    for i in 0..accounts.len()
        invariant
            lacks == without_code(accessed@, supplied@),
            culprits_are_looked_up(accounts@.take(i as int), lacks, addrs@),
            views(errs@) == code_errors(
                accounts@.take(i as int),
                accessed@,
                supplied@,
                addrs@,
            ),
    {
        assert(accounts@.take(i + 1).drop_last() == accounts@.take(i as int));
        let (h_addr, account) = accounts[i];
        assert(accounts@[i as int] == (h_addr, account));
        if !words_equal(&account.code_hash, &EMPTY_CODE_HASH) && accessed.contains(
            &account.code_hash,
        ) && !supplied.contains(&account.code_hash) {
            match addrs.get(&h_addr) {
                Some(attempt) => {
                    errs.push(
                        TraceVerificationError::MissingContractCodeForAccount(
                            *attempt,
                            h_addr,
                            account.code_hash,
                        ),
                    );
                },
                None => {
                    return None;
                },
            }
        }
    }
    assert(accounts@.take(accounts@.len() as int) == accounts@);
    Some(errs)
}

/// Whether the check of the storage tries can be made: the state trie lists accounts under hashed
/// addresses, the keys of the accounts whose storage the block reaches are hashed addresses, and the
/// origin of every account that lacks its storage trie has been looked up.
pub open spec fn storage_is_checkable(
    pre_image: PartialTriePreImages,
    traces: Seq<ProcessedTxnInfo>,
    addrs: Map<Nibbles, HashLookupAttempt<Address>>,
) -> bool {
    &&& leaf_keys_are_hashes(pre_image.state)
    &&& holds_accounts(pre_image.state)
    &&& forall|t: int| 0 <= t < traces.len() ==> storage_keys_are_hashes(#[trigger] traces[t])
    &&& culprits_are_looked_up(
        accounts_of(pre_image.state),
        without_storage_trie(storage_tries_accessed(traces), pre_image.storage@.dom()),
        addrs,
    )
}

/// Whether the check of the contract code can be made: the state trie lists accounts, and the origin
/// of every account that lacks its code has been looked up.
pub open spec fn code_is_checkable(
    pre_image_state: PartialTrie,
    traces: Seq<ProcessedTxnInfo>,
    supplied: Set<CodeHash>,
    addrs: Map<Nibbles, HashLookupAttempt<Address>>,
) -> bool {
    &&& holds_accounts(pre_image_state)
    &&& culprits_are_looked_up(
        accounts_of(pre_image_state),
        without_code(contract_code_accessed(traces), supplied),
        addrs,
    )
}

/// Makes the check of the storage tries where it can be made, and tells whether it could; nothing is
/// reported where it could not.
pub fn try_verify_all_prestate_storage_entries(
    pre_image: &PartialTriePreImages,
    traces: &[ProcessedTxnInfo],
    reverse_hash_mapping: &ReverseHashMapping,
    err_buf: &mut Vec<TraceVerificationError>,
) -> (checked: bool)
    ensures
        checked == storage_is_checkable(
            *pre_image,
            traces@,
            reverse_hash_mapping.hashed_addr_to_addr@,
        ),
        views(final(err_buf)@) == if checked {
            views(old(err_buf)@) + storage_errors(
                accounts_of(pre_image.state),
                storage_tries_accessed(traces@),
                pre_image.storage@.dom(),
                reverse_hash_mapping.hashed_addr_to_addr@,
            )
        } else {
            views(old(err_buf)@)
        },
{
    if !check_leaf_keys(&pre_image.state) || !check_storage_keys(traces) {
        return false;
    }
    let all_storage_accessed = get_all_storage_tries_that_are_accessed(traces);
    let accounts = match get_leaf_vals_from_trie_and_decode(&pre_image.state) {
        Some(accounts) => accounts,
        None => {
            return false;
        },
    };
    match find_missing_storage_tries(
        &accounts,
        &all_storage_accessed,
        &pre_image.storage,
        &reverse_hash_mapping.hashed_addr_to_addr,
    ) {
        Some(errs) => {
            append_errors(err_buf, errs);
            true
        },
        None => false,
    }
}

/// Makes the check of the contract code where it can be made, and tells whether it could; nothing is
/// reported where it could not.
pub fn try_verify_all_referenced_code(
    pre_image_state: &PartialTrie,
    traces: &[ProcessedTxnInfo],
    code_supplied_by_pre_image: &BTreeMap<CodeHash, Vec<u8>>,
    reverse_hash_mapping: &ReverseHashMapping,
    err_buf: &mut Vec<TraceVerificationError>,
) -> (checked: bool)
    ensures
        checked == code_is_checkable(
            *pre_image_state,
            traces@,
            code_supplied_by_pre_image@.dom(),
            reverse_hash_mapping.hashed_addr_to_addr@,
        ),
        views(final(err_buf)@) == if checked {
            views(old(err_buf)@) + code_errors(
                accounts_of(*pre_image_state),
                contract_code_accessed(traces@),
                code_supplied_by_pre_image@.dom(),
                reverse_hash_mapping.hashed_addr_to_addr@,
            )
        } else {
            views(old(err_buf)@)
        },
{
    let all_code_hashes_accessed = get_all_contract_code_hashes_that_are_accessed(traces);
    let supplied = code_hashes_of(code_supplied_by_pre_image);
    let accounts = match get_leaf_vals_from_trie_and_decode(pre_image_state) {
        Some(accounts) => accounts,
        None => {
            return false;
        },
    };
    match find_missing_contract_code(
        &accounts,
        &all_code_hashes_accessed,
        &supplied,
        &reverse_hash_mapping.hashed_addr_to_addr,
    ) {
        Some(errs) => {
            append_errors(err_buf, errs);
            true
        },
        None => false,
    }
}

/// Reports the accounts of the state trie that have storage which the block reaches, but whose
/// storage trie is not among those supplied.
pub fn verify_all_prestate_storage_entries_point_to_existing_tries(
    pre_image: &PartialTriePreImages,
    traces: &[ProcessedTxnInfo],
    reverse_hash_mapping: &ReverseHashMapping,
    err_buf: &mut Vec<TraceVerificationError>,
)
    requires
        storage_is_checkable(*pre_image, traces@, reverse_hash_mapping.hashed_addr_to_addr@),
    ensures
        views(final(err_buf)@) == views(old(err_buf)@) + storage_errors(
            accounts_of(pre_image.state),
            storage_tries_accessed(traces@),
            pre_image.storage@.dom(),
            reverse_hash_mapping.hashed_addr_to_addr@,
        ),
{
    try_verify_all_prestate_storage_entries(pre_image, traces, reverse_hash_mapping, err_buf);
}

/// Reports the accounts of the state trie that have code which the block runs, but whose code is not
/// among that supplied.
pub fn verify_all_referenced_code_exists_in_code_mapping(
    pre_image_state: &PartialTrie,
    traces: &[ProcessedTxnInfo],
    code_supplied_by_pre_image: &BTreeMap<CodeHash, Vec<u8>>,
    reverse_hash_mapping: &ReverseHashMapping,
    err_buf: &mut Vec<TraceVerificationError>,
)
    requires
        code_is_checkable(
            *pre_image_state,
            traces@,
            code_supplied_by_pre_image@.dom(),
            reverse_hash_mapping.hashed_addr_to_addr@,
        ),
    ensures
        views(final(err_buf)@) == views(old(err_buf)@) + code_errors(
            accounts_of(*pre_image_state),
            contract_code_accessed(traces@),
            code_supplied_by_pre_image@.dom(),
            reverse_hash_mapping.hashed_addr_to_addr@,
        ),
{
    try_verify_all_referenced_code(
        pre_image_state,
        traces,
        code_supplied_by_pre_image,
        reverse_hash_mapping,
        err_buf,
    );
}

/// The hashes of the code in the mapping.
pub fn code_hashes_of(code: &BTreeMap<CodeHash, Vec<u8>>) -> (hashes: BTreeSet<CodeHash>)
    ensures
        hashes@ == code@.dom(),
{
    let mut hashes: BTreeSet<CodeHash> = BTreeSet::new();
    insert_keys(&mut hashes, code);
    hashes
}

/// Whether the checks before a block can be made: the tries list accounts and hashed keys, and where
/// an account lacks its storage trie, `pre_image` has its key too.
pub open spec fn pre_state_is_checkable(
    pre_image: PartialTriePreImages,
    raw_traces: Seq<TxnInfo>,
    tries: PartialTriePreImages,
    traces: Seq<ProcessedTxnInfo>,
) -> bool {
    &&& pre_images_are_hashed(pre_image)
    &&& holds_accounts(pre_image.state)
    &&& storage_is_checkable(tries, traces, address_lookups(pre_image.state, raw_traces))
}

/// What the checks before a block report: the accounts that lack their code, those that lack their
/// storage trie, then the nodes that the trace does not reach.
pub open spec fn pre_state_errors(
    pre_image: PartialTriePreImages,
    code_supplied: Set<CodeHash>,
    raw_traces: Seq<TxnInfo>,
    tries: PartialTriePreImages,
    traces: Seq<ProcessedTxnInfo>,
) -> Seq<TraceVerificationErrorView> {
    let addrs = address_lookups(pre_image.state, raw_traces);
    let slots = slot_lookups(pre_image.storage@, raw_traces);
    code_errors(
        accounts_of(pre_image.state),
        contract_code_accessed(traces),
        code_supplied,
        addrs,
    ) + storage_errors(
        accounts_of(tries.state),
        storage_tries_accessed(traces),
        tries.storage@.dom(),
        addrs,
    ) + unused_state_errors(unknown_keys(addrs)) + unused_storage_errors(unknown_keys(slots))
        + unused_storage_errors(misplaced_leaves(pre_image.storage@, slots, raw_traces))
}

/// Exactly the accounts that lack something are reported.
pub proof fn law_culprits_are_reported(
    accounts: Seq<(Nibbles, AccountRlp)>,
    lacks: spec_fn((Nibbles, AccountRlp)) -> bool,
    error: spec_fn((Nibbles, AccountRlp)) -> TraceVerificationErrorView,
)
    ensures
        forall|i: int|
            0 <= i < accounts.len() && lacks(#[trigger] accounts[i]) ==> errors_of(
                accounts,
                lacks,
                error,
            ).contains(error(accounts[i])),
        forall|err: TraceVerificationErrorView| #[trigger]
            errors_of(accounts, lacks, error).contains(err) ==> exists|i: int|
                0 <= i < accounts.len() && lacks(#[trigger] accounts[i]) && err == error(
                    accounts[i],
                ),
    decreases accounts.len(),
{
    if accounts.len() > 0 {
        let rest = accounts.drop_last();
        let before = errors_of(rest, lacks, error);
        let errs = errors_of(accounts, lacks, error);
        law_culprits_are_reported(rest, lacks, error);
        assert forall|i: int| 0 <= i < accounts.len() && lacks(
            #[trigger] accounts[i],
        ) implies errs.contains(error(accounts[i])) by {
            if i < rest.len() {
                assert(rest[i] == accounts[i]);
                let e = choose|e: int| 0 <= e < before.len() && before[e] == error(rest[i]);
                assert(errs[e] == before[e]);
            } else {
                assert(errs[errs.len() - 1] == error(accounts[i]));
            }
        }
        assert forall|err: TraceVerificationErrorView| #[trigger] errs.contains(
            err,
        ) implies exists|i: int|
            0 <= i < accounts.len() && lacks(#[trigger] accounts[i]) && err == error(
                accounts[i],
            ) by {
            let e = choose|e: int| 0 <= e < errs.len() && errs[e] == err;
            if e < before.len() {
                assert(before.contains(before[e]));
                let i = choose|i: int|
                    0 <= i < rest.len() && lacks(#[trigger] rest[i]) && err == error(rest[i]);
                assert(accounts[i] == rest[i]);
            } else {
                assert(lacks(accounts[accounts.len() - 1]));
            }
        }
    }
}

/// Nothing is reported exactly where no account lacks anything.
pub proof fn law_nothing_is_reported_without_culprits(
    accounts: Seq<(Nibbles, AccountRlp)>,
    lacks: spec_fn((Nibbles, AccountRlp)) -> bool,
    error: spec_fn((Nibbles, AccountRlp)) -> TraceVerificationErrorView,
)
    ensures
        errors_of(accounts, lacks, error).len() == 0 <==> forall|i: int|
            0 <= i < accounts.len() ==> !lacks(#[trigger] accounts[i]),
{
    law_culprits_are_reported(accounts, lacks, error);
    let errs = errors_of(accounts, lacks, error);
    if errs.len() > 0 {
        assert(errs.contains(errs[0]));
    }
}

/// Whether everything that the accounts refer to and the block needs has been supplied, and nothing
/// that the block does not reach.
pub open spec fn pre_state_is_complete(
    pre_image: PartialTriePreImages,
    code_supplied: Set<CodeHash>,
    raw_traces: Seq<TxnInfo>,
    tries: PartialTriePreImages,
    traces: Seq<ProcessedTxnInfo>,
) -> bool {
    &&& forall|i: int|
        0 <= i < accounts_of(pre_image.state).len() ==> !lacks_contract_code(
            (#[trigger] accounts_of(pre_image.state)[i]).1,
            contract_code_accessed(traces),
            code_supplied,
        )
    &&& forall|i: int|
        0 <= i < accounts_of(tries.state).len() ==> !lacks_storage_trie(
            (#[trigger] accounts_of(tries.state)[i]).0,
            accounts_of(tries.state)[i].1,
            storage_tries_accessed(traces),
            tries.storage@.dom(),
        )
    &&& state_is_used(pre_image.state, raw_traces)
    &&& storage_is_used(pre_image.storage@, raw_traces)
}

/// The checks before a block report nothing exactly where everything that the accounts refer to and
/// the block needs has been supplied, and nothing that the block does not reach.
pub proof fn law_complete_pre_state_passes(
    pre_image: PartialTriePreImages,
    code_supplied: Set<CodeHash>,
    raw_traces: Seq<TxnInfo>,
    tries: PartialTriePreImages,
    traces: Seq<ProcessedTxnInfo>,
)
    ensures
        pre_state_errors(pre_image, code_supplied, raw_traces, tries, traces).len() == 0
            <==> pre_state_is_complete(pre_image, code_supplied, raw_traces, tries, traces),
{
    let addrs = address_lookups(pre_image.state, raw_traces);
    law_nothing_is_reported_without_culprits(
        accounts_of(pre_image.state),
        without_code(contract_code_accessed(traces), code_supplied),
        |account: (Nibbles, AccountRlp)| code_error(account, addrs),
    );
    law_nothing_is_reported_without_culprits(
        accounts_of(tries.state),
        without_storage_trie(storage_tries_accessed(traces), tries.storage@.dom()),
        |account: (Nibbles, AccountRlp)| storage_error(account, addrs),
    );
    law_used_state_passes(pre_image.state, raw_traces);
    law_used_storage_passes(pre_image, raw_traces);
}

/// The origin of every account in the state trie has been looked up.
pub proof fn law_every_account_is_looked_up(state: PartialTrie, raw_traces: Seq<TxnInfo>, i: int)
    requires
        0 <= i < accounts_of(state).len(),
    ensures
        address_lookups(state, raw_traces).contains_key(accounts_of(state)[i].0),
{
    assert(leaves_of(state)[i].0 == accounts_of(state)[i].0);
    assert(has_leaf(state, accounts_of(state)[i].0));
}

/// Tests whether the trie lists its leaves and each of their keys makes up a hash.
pub fn check_leaf_keys(trie: &PartialTrie) -> (hashed: bool)
    ensures
        hashed == leaf_keys_are_hashes(*trie),
{
    if !check_keys_fit(trie) {
        return false;
    }
    let leaves = get_leaf_vals_from_trie(trie);
    let ghost views = leaves_of(*trie);
    for i in 0..leaves.len()
        invariant
            views == leaves_of(*trie),
            views == leaves@.map_values(|leaf: (Nibbles, Vec<u8>)| leaf_view(leaf)),
            forall|j: int| 0 <= j < i ==> fills_hash((#[trigger] views[j]).0),
    {
        let key = leaves[i].0;
        assert(views[i as int].0 == key);
        if key.0 != 63 && key.0 != 64 {
            return false;
        }
    }
    true
}

/// Tests whether the keys in the tries are hashes throughout.
fn check_pre_images(pre_state: &PartialTriePreImages) -> (hashed: bool)
    ensures
        hashed == pre_images_are_hashed(*pre_state),
{
    if !check_leaf_keys(&pre_state.state) {
        return false;
    }
    let h_addrs = keys_in_order(&pre_state.storage);
    for i in 0..h_addrs.len()
        invariant
            h_addrs@.to_set() == pre_state.storage@.dom(),
            forall|j: int|
                0 <= j < i ==> leaf_keys_are_hashes(pre_state.storage@[#[trigger] h_addrs@[j]]),
    {
        assert(h_addrs@.to_set().contains(h_addrs@[i as int]));
        assert(pre_state.storage@.contains_key(h_addrs@[i as int]));
        if !check_leaf_keys(pre_state.storage.get(&h_addrs[i]).unwrap()) {
            return false;
        }
    }
    assert forall|h_addr: HashedAccountAddr| #[trigger]
        pre_state.storage@.contains_key(h_addr) implies leaf_keys_are_hashes(
        pre_state.storage@[h_addr],
    ) by {
        assert(h_addrs@.to_set().contains(h_addr));
        let j = choose|j: int| 0 <= j < h_addrs@.len() && h_addrs@[j] == h_addr;
        assert(leaf_keys_are_hashes(pre_state.storage@[h_addrs@[j]]));
    }
    true
}

/// Tests whether the keys of all accounts whose storage the block reaches make up hashes.
fn check_storage_keys(traces: &[ProcessedTxnInfo]) -> (hashed: bool)
    ensures
        hashed == forall|t: int|
            0 <= t < traces@.len() ==> storage_keys_are_hashes(#[trigger] traces@[t]),
{
    for t in 0..traces.len()
        invariant
            forall|s: int| 0 <= s < t ==> storage_keys_are_hashes(#[trigger] traces@[s]),
    {
        let accesses = &traces[t].nodes_used_by_txn.storage_accesses;
        for i in 0..accesses.len()
            invariant
                0 <= t < traces@.len(),
                accesses@ == traces@[t as int].nodes_used_by_txn.storage_accesses@,
                forall|j: int| 0 <= j < i ==> fills_hash((#[trigger] accesses@[j]).0),
        {
            let key = accesses[i].0;
            if key.0 != 63 && key.0 != 64 {
                assert(!fills_hash(
                    traces@[t as int].nodes_used_by_txn.storage_accesses@[i as int].0,
                ));
                assert(!storage_keys_are_hashes(traces@[t as int]));
                return false;
            }
        }
        assert(storage_keys_are_hashes(traces@[t as int]));
    }
    true
}

/// Makes the checks before a block; `None` where they cannot be made.
pub fn verify_pre_state(
    pre_image: &PartialTriePreImages,
    code_supplied_by_pre_image: &BTreeMap<CodeHash, Vec<u8>>,
    raw_traces: &[TxnInfo],
    tries: &PartialTriePreImages,
    traces: &[ProcessedTxnInfo],
) -> (found: Option<Vec<TraceVerificationError>>)
    ensures
        match found {
            Some(errs) => {
                &&& pre_state_is_checkable(*pre_image, raw_traces@, *tries, traces@)
                &&& views(errs@) == pre_state_errors(
                    *pre_image,
                    code_supplied_by_pre_image@.dom(),
                    raw_traces@,
                    *tries,
                    traces@,
                )
            },
            None => !pre_state_is_checkable(*pre_image, raw_traces@, *tries, traces@),
        },
{
    if !check_pre_images(pre_image) {
        return None;
    }
    let mapping = create_addr_to_hashed_addr_mapping(pre_image, raw_traces);
    proof {
        assert forall|i: int| 0 <= i < accounts_of(pre_image.state).len() implies address_lookups(
            pre_image.state,
            raw_traces@,
        ).contains_key((#[trigger] accounts_of(pre_image.state)[i]).0) by {
            law_every_account_is_looked_up(pre_image.state, raw_traces@, i);
        }
    }
    let mut err_buf: Vec<TraceVerificationError> = Vec::new();
    if !try_verify_all_referenced_code(
        &pre_image.state,
        traces,
        code_supplied_by_pre_image,
        &mapping,
        &mut err_buf,
    ) {
        return None;
    }
    if !try_verify_all_prestate_storage_entries(tries, traces, &mapping, &mut err_buf) {
        return None;
    }
    verify_all_pre_image_nodes_are_used(&mapping, &mut err_buf);
    verify_all_pre_image_slots_are_used_by_their_accounts(
        &pre_image.storage,
        raw_traces,
        &mapping,
        &mut err_buf,
    );
    Some(err_buf)
}

} // verus!
