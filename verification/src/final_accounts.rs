//! The accounts after a block, held against those that an upstream node tells.

use crate::account_diff::{
    value_diff, AccountRlpWithStorageTrie, AccountStateEntry, AccountStateEntryDiffView,
};
use crate::codec::{decode_account, hash_address, hashed_address, rlp_account};
use crate::errors::{views, TraceVerificationError, TraceVerificationErrorView};
use crate::roots::{push_trie_root_mismatch_error_if_roots_differ, root_errors};
use crate::trie::{
    check_is_hidden, check_keys_fit, found, is_hidden, keys_fit, root_of, trie_get, trie_root,
    trie_view, TrieView,
};
use crate::txn_state::{account_in, account_mismatch, PartialTrieState};
use crate::types::{
    words_equal, AccountRlp, Address, TrieInitialOrFinal, TrieRootHash, TrieType, TxnIdx,
    EMPTY_CODE_HASH, EMPTY_TRIE_HASH,
};
use std::collections::BTreeMap;
use vstd::prelude::*;

verus! {

/// An account that was never used.
pub open spec fn unused_account() -> AccountRlp {
    AccountRlp {
        nonce: (0, 0),
        balance: (0, 0),
        storage_root: EMPTY_TRIE_HASH,
        code_hash: EMPTY_CODE_HASH,
    }
}

/// What the local state tells of an account.
#[derive(Clone, Copy, Debug)]
pub enum LocalAccount {
    /// This is the account.
    Known(AccountRlp),
    /// The account lies in a part of the state trie that is not held.
    Hidden,
}

/// What the state trie tells of the account at `addr`; `None` where the account cannot be read.
/// Accounts that were never used have no node in the state trie.
pub open spec fn final_account(state: TrieView, addr: Address) -> Option<LocalAccount> {
    match found(state, hashed_address(addr)) {
        Some(bytes) => match rlp_account(bytes) {
            Some(account) => Some(LocalAccount::Known(account)),
            None => None,
        },
        None => if is_hidden(state, hashed_address(addr)) {
            Some(LocalAccount::Hidden)
        } else {
            Some(LocalAccount::Known(unused_account()))
        },
    }
}

/// The root of the storage trie of the account at `addr`, where there is such a trie.
pub open spec fn final_storage_root(local: PartialTrieState, addr: Address) -> Option<
    TrieRootHash,
> {
    let h_addr = hashed_address(addr);
    if local.storage@.contains_key(h_addr) {
        Some(root_of(trie_view(local.storage@[h_addr])))
    } else {
        None
    }
}

/// Whether the account at `addr` and the root of its storage trie can be read.
pub open spec fn final_account_is_readable(local: PartialTrieState, addr: Address) -> bool {
    let h_addr = hashed_address(addr);
    &&& keys_fit(local.state)
    &&& final_account(trie_view(local.state), addr) is Some
    &&& local.storage@.contains_key(h_addr) ==> keys_fit(local.storage@[h_addr])
}

/// In what the two accounts differ, storage aside.
pub open spec fn account_diff(
    local: AccountRlp,
    upstream: AccountRlp,
) -> AccountStateEntryDiffView {
    AccountStateEntryDiffView {
        balance: value_diff(Some(upstream.balance), local.balance),
        nonce: value_diff(Some(upstream.nonce), local.nonce),
        code_hash: value_diff(Some(upstream.code_hash), local.code_hash),
        storage: Seq::empty(),
    }
}

/// What is reported of an account after the block, storage tries aside: balance, nonce and code hash
/// in one error where one of them differs, then the storage root.
pub open spec fn field_errors(
    txn_idx: TxnIdx,
    addr: Address,
    local: AccountRlp,
    upstream: AccountRlp,
) -> Seq<TraceVerificationErrorView> {
    let diff = account_diff(local, upstream);
    let fields = if diff.values_have_changed() {
        seq![TraceVerificationErrorView::AccountStateMismatch(txn_idx, addr, diff)]
    } else {
        Seq::empty()
    };
    fields + root_errors(
        local.storage_root,
        upstream.storage_root,
        TrieInitialOrFinal::Final,
        TrieType::Storage,
    )
}

/// What is reported of the root of an account's storage trie: an error where it differs from the
/// upstream one, unless the account's own storage root, being the same, has been reported already.
pub open spec fn trie_errors(
    local: LocalAccount,
    local_s_root: Option<TrieRootHash>,
    upstream: AccountRlp,
) -> Seq<TraceVerificationErrorView> {
    match local_s_root {
        Some(s_root) => if local matches LocalAccount::Known(account) && account.storage_root
            == s_root {
            Seq::empty()
        } else {
            root_errors(
                s_root,
                upstream.storage_root,
                TrieInitialOrFinal::Final,
                TrieType::Storage,
            )
        },
        None => Seq::empty(),
    }
}

/// What is reported of an account after the block: the fields that differ, where the account is
/// known, then the root of its storage trie, where there is one.
pub open spec fn account_errors(
    txn_idx: TxnIdx,
    addr: Address,
    local: LocalAccount,
    local_s_root: Option<TrieRootHash>,
    upstream: AccountRlp,
) -> Seq<TraceVerificationErrorView> {
    let fields = match local {
        LocalAccount::Known(account) => field_errors(txn_idx, addr, account, upstream),
        LocalAccount::Hidden => Seq::empty(),
    };
    fields + trie_errors(local, local_s_root, upstream)
}

/// What is reported of the accounts after the block, one after another.
pub open spec fn final_account_errors(
    local: PartialTrieState,
    txn_idx: TxnIdx,
    upstream: Seq<(Address, AccountRlp)>,
) -> Seq<TraceVerificationErrorView>
    decreases upstream.len(),
{
    if upstream.len() == 0 {
        Seq::empty()
    } else {
        let (addr, account) = upstream.last();
        final_account_errors(local, txn_idx, upstream.drop_last()) + account_errors(
            txn_idx,
            addr,
            final_account(trie_view(local.state), addr)->0,
            final_storage_root(local, addr),
            account,
        )
    }
}

/// Whether all these accounts can be read from the local state.
pub open spec fn final_accounts_are_readable(
    local: PartialTrieState,
    upstream: Seq<(Address, AccountRlp)>,
) -> bool {
    forall|i: int|
        0 <= i < upstream.len() ==> final_account_is_readable(local, (#[trigger] upstream[i]).0)
}

/// Reports the fields of an account after the block that are not what the upstream node tells.
fn report_fields(
    txn_idx: TxnIdx,
    addr: &Address,
    local: &AccountRlp,
    upstream: &AccountRlp,
    err_buf: &mut Vec<TraceVerificationError>,
)
    ensures
        views(final(err_buf)@) == views(old(err_buf)@) + field_errors(
            txn_idx,
            *addr,
            *local,
            *upstream,
        ),
{
    let reported = AccountStateEntry {
        balance: Some(upstream.balance),
        nonce: Some(upstream.nonce),
        code_hash: Some(upstream.code_hash),
        storage: None,
    };
    let ours = AccountRlpWithStorageTrie {
        balance: local.balance,
        nonce: local.nonce,
        code_hash: local.code_hash,
        storage_trie_delta: BTreeMap::new(),
    };
    assert(reported@.diff(ours@) =~= account_diff(*local, *upstream));
    match account_mismatch(txn_idx, addr, &reported, &ours) {
        Some(err) => {
            err_buf.push(err);
        },
        None => {},
    }
    push_trie_root_mismatch_error_if_roots_differ(
        &local.storage_root,
        &upstream.storage_root,
        TrieInitialOrFinal::Final,
        TrieType::Storage,
        err_buf,
    );
}

/// Reports an account after the block where it is not what the upstream node tells.
pub fn report_account(
    txn_idx: TxnIdx,
    addr: &Address,
    local: &LocalAccount,
    local_s_root: Option<TrieRootHash>,
    upstream: &AccountRlp,
    err_buf: &mut Vec<TraceVerificationError>,
)
    ensures
        views(final(err_buf)@) == views(old(err_buf)@) + account_errors(
            txn_idx,
            *addr,
            *local,
            local_s_root,
            *upstream,
        ),
{
    match local {
        LocalAccount::Known(account) => {
            report_fields(txn_idx, addr, account, upstream, err_buf);
        },
        LocalAccount::Hidden => {},
    }
    match local_s_root {
        Some(s_root) => {
            let already_compared = match local {
                LocalAccount::Known(account) => words_equal(&account.storage_root, &s_root),
                LocalAccount::Hidden => false,
            };
            if !already_compared {
                push_trie_root_mismatch_error_if_roots_differ(
                    &s_root,
                    &upstream.storage_root,
                    TrieInitialOrFinal::Final,
                    TrieType::Storage,
                    err_buf,
                );
            }
        },
        None => {},
    }
}

/// What the local state tells of the account at `addr`, and the root of its storage trie; `None`
/// where one of them cannot be read.
pub fn try_get_final_account(local: &PartialTrieState, addr: &Address) -> (account: Option<
    (LocalAccount, Option<TrieRootHash>),
>)
    ensures
        match account {
            Some((account, s_root)) => {
                &&& final_account_is_readable(*local, *addr)
                &&& final_account(trie_view(local.state), *addr) == Some(account)
                &&& s_root == final_storage_root(*local, *addr)
            },
            None => !final_account_is_readable(*local, *addr),
        },
{
    if !check_keys_fit(&local.state) {
        return None;
    }
    let h_addr = hash_address(addr);
    let account = match trie_get(&local.state, &h_addr) {
        Some(bytes) => match decode_account(bytes.as_slice()) {
            Some(account) => LocalAccount::Known(account),
            None => {
                return None;
            },
        },
        None => if check_is_hidden(&local.state, &h_addr) {
            LocalAccount::Hidden
        } else {
            LocalAccount::Known(
                AccountRlp {
                    nonce: (0, 0),
                    balance: (0, 0),
                    storage_root: EMPTY_TRIE_HASH,
                    code_hash: EMPTY_CODE_HASH,
                },
            )
        },
    };
    match local.storage.get(&h_addr) {
        Some(s_trie) => if check_keys_fit(s_trie) {
            Some((account, Some(trie_root(s_trie))))
        } else {
            None
        },
        None => Some((account, None)),
    }
}

/// What is to be reported of the accounts after the block; `None` where one of them cannot be read.
pub fn find_accounts_that_differ(
    local: &PartialTrieState,
    txn_idx: TxnIdx,
    upstream: &Vec<(Address, AccountRlp)>,
) -> (found: Option<Vec<TraceVerificationError>>)
    ensures
        match found {
            Some(errs) => {
                &&& final_accounts_are_readable(*local, upstream@)
                &&& views(errs@) == final_account_errors(*local, txn_idx, upstream@)
            },
            None => !final_accounts_are_readable(*local, upstream@),
        },
{
    let mut errs: Vec<TraceVerificationError> = Vec::new();
    for i in 0..upstream.len()
        invariant
            final_accounts_are_readable(*local, upstream@.take(i as int)),
            views(errs@) == final_account_errors(*local, txn_idx, upstream@.take(i as int)),
    {
        assert(upstream@.take(i + 1).drop_last() == upstream@.take(i as int));
        let (addr, account) = upstream[i];
        assert(upstream@[i as int] == (addr, account));
        match try_get_final_account(local, &addr) {
            Some((ours, s_root)) => {
                report_account(txn_idx, &addr, &ours, s_root, &account, &mut errs);
            },
            None => {
                return None;
            },
        }
    }
    assert(upstream@.take(upstream@.len() as int) == upstream@);
    Some(errs)
}

/// Whether the account at `addr`, where it is known, is what the upstream node tells, in all its
/// fields, and its storage trie, where there is one, has the storage root that the upstream node
/// tells.
pub open spec fn final_account_agrees(
    local: PartialTrieState,
    addr: Address,
    upstream: AccountRlp,
) -> bool {
    &&& final_account(trie_view(local.state), addr) matches Some(LocalAccount::Known(account))
        ==> account == upstream
    &&& final_storage_root(local, addr) matches Some(s_root) ==> s_root == upstream.storage_root
}

/// Whether all these accounts are what the upstream node tells.
pub open spec fn final_accounts_agree(
    local: PartialTrieState,
    upstream: Seq<(Address, AccountRlp)>,
) -> bool {
    forall|i: int|
        0 <= i < upstream.len() ==> final_account_agrees(
            local,
            (#[trigger] upstream[i]).0,
            upstream[i].1,
        )
}

/// The accounts after the block are reported exactly where one of them is not what the upstream node
/// tells, or has a storage trie with another root.
pub proof fn law_agreeing_accounts_pass(
    local: PartialTrieState,
    txn_idx: TxnIdx,
    upstream: Seq<(Address, AccountRlp)>,
)
    requires
        final_accounts_are_readable(local, upstream),
    ensures
        final_account_errors(local, txn_idx, upstream).len() == 0 <==> final_accounts_agree(
            local,
            upstream,
        ),
    decreases upstream.len(),
{
    if upstream.len() > 0 {
        let rest = upstream.drop_last();
        let (addr, account) = upstream.last();
        let ours = final_account(trie_view(local.state), addr)->0;
        let s_root = final_storage_root(local, addr);
        assert forall|i: int| 0 <= i < rest.len() implies final_account_is_readable(
            local,
            (#[trigger] rest[i]).0,
        ) by {
            assert(rest[i] == upstream[i]);
        }
        law_agreeing_accounts_pass(local, txn_idx, rest);
        assert(final_account_is_readable(local, upstream[upstream.len() - 1].0));
        assert(account_errors(txn_idx, addr, ours, s_root, account).len() == 0
            <==> final_account_agrees(local, addr, account));
        if final_accounts_agree(local, upstream) {
            assert forall|i: int| 0 <= i < rest.len() implies final_account_agrees(
                local,
                (#[trigger] rest[i]).0,
                rest[i].1,
            ) by {
                assert(rest[i] == upstream[i]);
            }
            assert(final_account_agrees(local, upstream[upstream.len() - 1].0, account));
        }
        if final_account_errors(local, txn_idx, upstream).len() == 0 {
            assert forall|i: int| 0 <= i < upstream.len() implies final_account_agrees(
                local,
                (#[trigger] upstream[i]).0,
                upstream[i].1,
            ) by {
                if i < rest.len() {
                    assert(rest[i] == upstream[i]);
                }
            }
        }
    }
}

/// An account that the state trie holds is the one that the upstream node's answer is held against.
pub proof fn law_held_accounts_are_compared(local: PartialTrieState, addr: Address)
    requires
        account_in(trie_view(local.state), addr) is Some,
    ensures
        final_account(trie_view(local.state), addr) == Some(
            LocalAccount::Known(account_in(trie_view(local.state), addr)->0),
        ),
{
}

} // verus!
