//! The checks against an upstream node.

use eth_trie_utils::partial_trie::Nibbles as EthNibbles;
use eth_trie_utils::partial_trie::PartialTrie;
use eth_trie_utils::partial_trie::WrappedNode;
use rlp::RlpStream;
use std::collections::BTreeMap;
use trace_verification::account_diff::{
    AccountRlpWithStorageTrie, AccountStateEntry, AccountStateEntryDiff,
};
use trace_verification::block::begin_verification;
use trace_verification::codec::{hash_address, hash_slot};
use trace_verification::errors::{conclude, TraceVerificationError};
use trace_verification::final_accounts::{
    find_accounts_that_differ, report_account, try_get_final_account, LocalAccount,
};
use trace_verification::replay::{account_state_entry, Change};
use trace_verification::reverse_hash::PartialTriePreImages;
use trace_verification::roots::{
    previous_block, push_trie_root_mismatch_error_if_roots_differ, some_roots_differ,
    verify_that_initial_tries_are_correct, verify_trie_roots_match_local, TxnProofGenIR,
};
use trace_verification::rpc::{
    get_upstream_account_state_for_all_addresses_used_in_trace, rpc_request, rpc_start,
    rpc_step, RpcReply, RpcRequest, RpcState, UpstreamBlock,
};
use trace_verification::storage_roots::{
    get_addresses_to_check, get_our_storage_roots, report_storage_roots_that_differ,
    try_verify_all_upstream_storage_roots,
    verify_all_upstream_storage_roots_match_our_storage_roots,
};
use trace_verification::trace::{NodesUsedByTxn, ProcessedTxnInfo, TxnInfo, TxnTrace};
use trace_verification::trie::check_is_hidden;
use trace_verification::txn_state::{
    account_mismatch, find_and_report_upstream_txn_states_that_differ_from_ours,
    find_first_mismatch, get_account_from_trie, try_get_account_from_trie, try_get_slot_values,
    try_read_local_account, PartialTrieState, TxnStateDiff,
};
use trace_verification::types::{
    AccountRlp, Address, TrieInitialOrFinal, TrieRoots, TrieType, EMPTY_CODE_HASH, EMPTY_TRIE_HASH,
    H256, U256,
};

const ALICE: Address = (1, 1);
const BOB: Address = (2, 2);

const SLOT: H256 = (0, 10);
const OTHER_SLOT: H256 = (0, 11);

fn eth_word(word: (u128, u128)) -> ethereum_types::U256 {
    (ethereum_types::U256::from(word.0) << 128) + ethereum_types::U256::from(word.1)
}

fn eth_hash(word: (u128, u128)) -> ethereum_types::H256 {
    let mut bytes = [0u8; 32];
    eth_word(word).to_big_endian(&mut bytes);
    ethereum_types::H256(bytes)
}

fn nibbles(hash: H256) -> EthNibbles {
    EthNibbles::from_h256_be(eth_hash(hash))
}

fn account(nonce: u128) -> AccountRlp {
    AccountRlp {
        nonce: (0, nonce),
        balance: (0, 100),
        storage_root: EMPTY_TRIE_HASH,
        code_hash: EMPTY_CODE_HASH,
    }
}

fn encode_account(account: &AccountRlp) -> Vec<u8> {
    let mut stream = RlpStream::new_list(4);
    stream.append(&eth_word(account.nonce));
    stream.append(&eth_word(account.balance));
    stream.append(&eth_hash(account.storage_root));
    stream.append(&eth_hash(account.code_hash));
    stream.out().to_vec()
}

/// A state with these accounts, each with an entry of the slot `SLOT`.
fn local_state(accounts: &[(Address, AccountRlp, U256)]) -> PartialTrieState {
    let mut state = PartialTrie::default();
    let mut storage = BTreeMap::new();
    for (addr, account, value) in accounts {
        state.insert(nibbles(hash_address(addr)), encode_account(account));
        let mut s_trie = PartialTrie::default();
        s_trie.insert(nibbles(hash_slot(&SLOT)), rlp::encode(&eth_word(*value)).to_vec());
        storage.insert(hash_address(addr), s_trie);
    }
    PartialTrieState { state, storage }
}

/// A state with these accounts and without storage tries.
fn accounts_only(accounts: &[(Address, AccountRlp)]) -> PartialTrieState {
    let mut state = PartialTrie::default();
    for (addr, account) in accounts {
        state.insert(nibbles(hash_address(addr)), encode_account(account));
    }
    PartialTrieState { state, storage: BTreeMap::new() }
}

fn nonce_reported(nonce: u128) -> AccountStateEntry {
    AccountStateEntry {
        balance: None,
        nonce: Some((0, nonce)),
        code_hash: None,
        storage: None,
    }
}

fn slots_reported(slots: &[(H256, U256)]) -> AccountStateEntry {
    AccountStateEntry {
        balance: None,
        nonce: None,
        code_hash: None,
        storage: Some(slots.iter().copied().collect()),
    }
}

fn reported(entries: Vec<(Address, AccountStateEntry)>) -> TxnStateDiff {
    entries.into_iter().collect()
}

fn roots(n: u128) -> TrieRoots {
    TrieRoots {
        state_root: (n, 1),
        transactions_root: (n, 2),
        receipts_root: (n, 3),
    }
}

fn empty_roots() -> TrieRoots {
    TrieRoots {
        state_root: EMPTY_TRIE_HASH,
        transactions_root: EMPTY_TRIE_HASH,
        receipts_root: EMPTY_TRIE_HASH,
    }
}

fn txn(b_height: u64, trie_roots_after: TrieRoots) -> TxnProofGenIR {
    TxnProofGenIR {
        b_height,
        state_trie: PartialTrie::Empty,
        transactions_trie: PartialTrie::Empty,
        receipts_trie: PartialTrie::Empty,
        trie_roots_after,
    }
}

fn block(roots: TrieRoots, txn_hashes: Vec<H256>) -> RpcReply {
    RpcReply::Block(UpstreamBlock { roots, txn_hashes })
}

fn touched(addrs: &[Address]) -> TxnInfo {
    let mut traces = BTreeMap::new();
    for addr in addrs {
        traces.insert(*addr, TxnTrace { storage_read: None, storage_written: None });
    }
    TxnInfo { traces }
}

fn written(addr: Address, slots: Option<Vec<(H256, U256)>>) -> TxnInfo {
    let mut traces = BTreeMap::new();
    traces.insert(
        addr,
        TxnTrace {
            storage_read: None,
            storage_written: slots.map(|slots| slots.into_iter().collect()),
        },
    );
    TxnInfo { traces }
}

fn root_mismatch(err: &TraceVerificationError) -> (TrieType, TrieInitialOrFinal, H256, H256) {
    match err {
        TraceVerificationError::DecoderTrieRootMismatch(trie_type, when, ours, upstream) => {
            (*trie_type, *when, *ours, *upstream)
        }
        err => panic!("{:?}", err),
    }
}

fn state_mismatch(err: &TraceVerificationError) -> (usize, Address, AccountStateEntryDiff) {
    match err {
        TraceVerificationError::AccountStateMismatch(txn_idx, addr, diff) => {
            (*txn_idx, *addr, diff.clone())
        }
        err => panic!("{:?}", err),
    }
}

#[test]
fn roots_that_differ_are_reported_in_order() {
    let mut err_buf = vec![];
    let upstream = TrieRoots { transactions_root: (1, 2), ..roots(2) };
    verify_trie_roots_match_local(&roots(1), &upstream, TrieInitialOrFinal::Final, &mut err_buf);
    assert_eq!(err_buf.len(), 2);
    assert_eq!(
        root_mismatch(&err_buf[0]),
        (TrieType::State, TrieInitialOrFinal::Final, (1, 1), (2, 1))
    );
    assert_eq!(
        root_mismatch(&err_buf[1]),
        (TrieType::Receipt, TrieInitialOrFinal::Final, (1, 3), (2, 3))
    );
    verify_trie_roots_match_local(&roots(1), &roots(1), TrieInitialOrFinal::Final, &mut err_buf);
    assert_eq!(err_buf.len(), 2);
    push_trie_root_mismatch_error_if_roots_differ(
        &(1, 2),
        &(2, 2),
        TrieInitialOrFinal::Initial,
        TrieType::Txn,
        &mut err_buf,
    );
    assert_eq!(
        root_mismatch(&err_buf[2]),
        (TrieType::Txn, TrieInitialOrFinal::Initial, (1, 2), (2, 2))
    );
}

#[test]
fn one_root_is_enough_for_a_difference() {
    assert!(!some_roots_differ(&roots(1), &roots(1)));
    assert!(some_roots_differ(&roots(1), &TrieRoots { state_root: (2, 1), ..roots(1) }));
    assert!(some_roots_differ(&roots(1), &TrieRoots { transactions_root: (2, 1), ..roots(1) }));
    assert!(some_roots_differ(&roots(1), &TrieRoots { receipts_root: (2, 1), ..roots(1) }));
}

#[test]
fn initial_tries_are_held_against_the_block_before() {
    assert_eq!(previous_block(0), None);
    assert_eq!(previous_block(1), Some(0));
    assert_eq!(previous_block(17), Some(16));
    let mut err_buf = vec![];
    verify_that_initial_tries_are_correct(&txn(1, roots(1)), &empty_roots(), &mut err_buf);
    assert!(err_buf.is_empty());
    let upstream = TrieRoots { transactions_root: (9, 9), ..empty_roots() };
    verify_that_initial_tries_are_correct(&txn(1, roots(1)), &upstream, &mut err_buf);
    assert_eq!(err_buf.len(), 1);
    assert_eq!(
        root_mismatch(&err_buf[0]),
        (TrieType::Txn, TrieInitialOrFinal::Initial, EMPTY_TRIE_HASH, (9, 9))
    );
}

#[test]
fn account_is_read_under_its_hashed_address() {
    let local = local_state(&[(ALICE, account(5), (0, 1))]);
    assert_eq!(get_account_from_trie(&local.state, &ALICE).nonce, (0, 5));
    assert_eq!(try_get_account_from_trie(&local.state, &ALICE).unwrap().balance, (0, 100));
    assert!(try_get_account_from_trie(&local.state, &BOB).is_none());
    let too_long = PartialTrie::Leaf {
        nibbles: EthNibbles { count: 65, packed: eth_word((0, 1)) },
        value: vec![],
    };
    assert!(try_get_account_from_trie(&too_long, &ALICE).is_none());
    let mut no_account = PartialTrie::default();
    no_account.insert(nibbles(hash_address(&ALICE)), vec![1u8]);
    assert!(try_get_account_from_trie(&no_account, &ALICE).is_none());
}

#[test]
fn missing_slot_holds_zero() {
    let local = local_state(&[(ALICE, account(5), (0, 7))]);
    let s_trie = &local.storage[&hash_address(&ALICE)];
    let values = try_get_slot_values(s_trie, &vec![SLOT, OTHER_SLOT]).unwrap();
    assert_eq!(values.len(), 2);
    assert_eq!(values[&SLOT], (0, 7));
    assert_eq!(values[&OTHER_SLOT], (0, 0));
    let upstream = slots_reported(&[(SLOT, (0, 7)), (OTHER_SLOT, (0, 0))]);
    let read = try_read_local_account(&local, &ALICE, &upstream).unwrap();
    assert!(!upstream.create_diff_from_actual_data(&read).values_have_changed());
}

#[test]
fn slots_that_cannot_be_read_are_told() {
    let mut no_value = PartialTrie::default();
    no_value.insert(nibbles(hash_slot(&SLOT)), vec![0xc0u8]);
    assert!(try_get_slot_values(&no_value, &vec![SLOT]).is_none());
    let too_long = PartialTrie::Leaf {
        nibbles: EthNibbles { count: 65, packed: eth_word((0, 1)) },
        value: vec![],
    };
    assert!(try_get_slot_values(&too_long, &vec![SLOT]).is_none());
    assert!(try_get_slot_values(&too_long, &vec![]).unwrap().is_empty());
    let mut no_storage = local_state(&[(ALICE, account(5), (0, 7))]);
    no_storage.storage.clear();
    assert!(try_read_local_account(&no_storage, &ALICE, &nonce_reported(5)).is_none());
}

#[test]
fn every_reported_value_is_compared() {
    let mut storage_trie_delta = BTreeMap::new();
    storage_trie_delta.insert(SLOT, (0, 7));
    let local = AccountRlpWithStorageTrie {
        balance: (0, 1),
        nonce: (0, 2),
        code_hash: (0, 3),
        storage_trie_delta,
    };
    assert_eq!(local.slot(&SLOT), (0, 7));
    assert_eq!(local.slot(&OTHER_SLOT), (0, 0));
    let mut upstream = slots_reported(&[(SLOT, (0, 7)), (OTHER_SLOT, (0, 4))]);
    upstream.balance = Some((0, 1));
    upstream.nonce = Some((0, 5));
    upstream.code_hash = Some((0, 6));
    assert_eq!(upstream.get_storage_addrs_changed(), Some(vec![SLOT, OTHER_SLOT]));
    assert_eq!(nonce_reported(1).get_storage_addrs_changed(), None);
    let err = account_mismatch(3, &ALICE, &upstream, &local).unwrap();
    let (txn_idx, addr, diff) = state_mismatch(&err);
    assert_eq!((txn_idx, addr), (3, ALICE));
    assert!(diff.balance.is_none());
    let nonce = diff.nonce.unwrap();
    assert_eq!((nonce.upstream, nonce.local), ((0, 5), (0, 2)));
    let code_hash = diff.code_hash.unwrap();
    assert_eq!((code_hash.upstream, code_hash.local), ((0, 6), (0, 3)));
    assert_eq!(diff.storage.len(), 1);
    assert_eq!(diff.storage[0].0, OTHER_SLOT);
    assert_eq!((diff.storage[0].1.upstream, diff.storage[0].1.local), ((0, 4), (0, 0)));
    assert!(account_mismatch(3, &ALICE, &nonce_reported(2), &local).is_none());
}

#[test]
fn only_the_first_mismatch_is_reported() {
    let states = [
        local_state(&[(ALICE, account(1), (0, 7))]),
        local_state(&[(ALICE, account(2), (0, 7)), (BOB, account(3), (0, 7))]),
        local_state(&[(ALICE, account(2), (0, 7))]),
    ];
    let diffs = vec![
        reported(vec![(ALICE, nonce_reported(1))]),
        reported(vec![(BOB, nonce_reported(9)), (ALICE, slots_reported(&[(SLOT, (0, 8))]))]),
        reported(vec![(ALICE, nonce_reported(9))]),
    ];
    let mut err_buf = vec![];
    find_and_report_upstream_txn_states_that_differ_from_ours(&diffs, &states, &mut err_buf);
    assert_eq!(err_buf.len(), 1);
    let (txn_idx, addr, diff) = state_mismatch(&err_buf[0]);
    assert_eq!((txn_idx, addr), (1, ALICE));
    assert!(diff.nonce.is_none());
    assert_eq!(diff.storage.len(), 1);
    assert_eq!(diff.storage[0].0, SLOT);
    assert_eq!((diff.storage[0].1.upstream, diff.storage[0].1.local), ((0, 8), (0, 7)));
}

#[test]
fn agreement_is_silent() {
    let states = [local_state(&[(ALICE, account(1), (0, 7)), (BOB, account(2), (0, 7))])];
    let diffs = vec![
        reported(vec![
            (ALICE, slots_reported(&[(SLOT, (0, 7)), (OTHER_SLOT, (0, 0))])),
            (BOB, nonce_reported(2)),
        ]),
        reported(vec![(ALICE, nonce_reported(77))]),
    ];
    let mut err_buf = vec![];
    find_and_report_upstream_txn_states_that_differ_from_ours(&diffs, &states, &mut err_buf);
    assert!(err_buf.is_empty());
    assert!(matches!(find_first_mismatch(&vec![], &states), Some(None)));
}

#[test]
fn what_comes_after_the_first_mismatch_need_not_be_readable() {
    let states = [local_state(&[(ALICE, account(1), (0, 7))])];
    let diffs =
        vec![reported(vec![(ALICE, nonce_reported(2)), (BOB, nonce_reported(2))])];
    let err = find_first_mismatch(&diffs, &states).unwrap().unwrap();
    assert_eq!(state_mismatch(&err).1, ALICE);
    let diffs =
        vec![reported(vec![(ALICE, nonce_reported(1)), (BOB, nonce_reported(2))])];
    assert!(find_first_mismatch(&diffs, &states).is_none());
}

#[test]
fn agreeing_roots_ask_for_nothing_but_accounts() {
    let ir = [txn(5, roots(1)), txn(6, roots(2))];
    let traces = [touched(&[BOB]), touched(&[ALICE])];
    let states = [accounts_only(&[]), accounts_only(&[(ALICE, account(1)), (BOB, account(2))])];
    let mut err_buf = vec![];
    let state = rpc_start(&ir);
    assert!(matches!(state, RpcState::AwaitBlock(6)));
    assert!(matches!(rpc_request(&state, &traces), Some(RpcRequest::Block(6))));
    let state =
        rpc_step(state, block(roots(2), vec![]), &ir, &states, &traces, &mut err_buf).unwrap();
    match rpc_request(&state, &traces) {
        Some(RpcRequest::Accounts(addrs, b_height)) => {
            assert_eq!(addrs, vec![ALICE, BOB]);
            assert_eq!(b_height, 6);
        }
        _ => panic!("accounts are asked for"),
    }
    let accounts = RpcReply::Accounts(vec![account(1), account(2)]);
    let state = rpc_step(state, accounts, &ir, &states, &traces, &mut err_buf).unwrap();
    match &state {
        RpcState::Done(fetched) => {
            assert_eq!(fetched.len(), 2);
            assert_eq!((fetched[0].0, fetched[0].1.nonce), (ALICE, (0, 1)));
            assert_eq!((fetched[1].0, fetched[1].1.nonce), (BOB, (0, 2)));
        }
        _ => panic!("done"),
    }
    assert!(rpc_request(&state, &traces).is_none());
    assert!(err_buf.is_empty());
    assert!(conclude(err_buf).is_ok());
}

#[test]
fn accounts_that_differ_after_the_block_are_reported() {
    let ir = [txn(5, roots(1)), txn(6, roots(2))];
    let traces = [touched(&[BOB, ALICE])];
    let states = [accounts_only(&[]), accounts_only(&[(ALICE, account(1)), (BOB, account(2))])];
    let mut err_buf = vec![];
    let mut upstream_bob = account(3);
    upstream_bob.storage_root = (5, 5);
    let accounts = RpcReply::Accounts(vec![account(1), upstream_bob]);
    let state = RpcState::AwaitAccounts(6);
    assert!(rpc_step(state, accounts, &ir, &states, &traces, &mut err_buf).is_some());
    assert_eq!(err_buf.len(), 2);
    let (txn_idx, addr, diff) = state_mismatch(&err_buf[0]);
    assert_eq!((txn_idx, addr), (1, BOB));
    let nonce = diff.nonce.unwrap();
    assert_eq!((nonce.upstream, nonce.local), ((0, 3), (0, 2)));
    assert!(diff.balance.is_none() && diff.code_hash.is_none() && diff.storage.is_empty());
    assert_eq!(
        root_mismatch(&err_buf[1]),
        (TrieType::Storage, TrieInitialOrFinal::Final, EMPTY_TRIE_HASH, (5, 5))
    );
}

#[test]
fn storage_tries_are_held_against_upstream() {
    let ir = [txn(6, roots(2))];
    let traces = [written(ALICE, Some(vec![(SLOT, (0, 7))]))];
    let states = [local_state(&[(ALICE, account(1), (0, 7))])];
    let our_s_root =
        get_our_storage_roots(&states[0].storage, &get_addresses_to_check(&traces)).unwrap()[0];
    let mut err_buf = vec![];
    let reply = RpcReply::Accounts(vec![account(1)]);
    let state = RpcState::AwaitAccounts(6);
    assert!(rpc_step(state, reply, &ir, &states, &traces, &mut err_buf).is_some());
    assert_eq!(err_buf.len(), 1);
    assert_eq!(
        root_mismatch(&err_buf[0]),
        (TrieType::Storage, TrieInitialOrFinal::Final, our_s_root, EMPTY_TRIE_HASH)
    );

    let mut settled = account(1);
    settled.storage_root = our_s_root;
    let states = [local_state(&[(ALICE, settled, (0, 7))])];
    let mut err_buf = vec![];
    let reply = RpcReply::Accounts(vec![settled]);
    let state = RpcState::AwaitAccounts(6);
    assert!(rpc_step(state, reply, &ir, &states, &traces, &mut err_buf).is_some());
    verify_all_upstream_storage_roots_match_our_storage_roots(
        &traces,
        &states[0].storage,
        &vec![settled.storage_root],
        &mut err_buf,
    );
    assert!(err_buf.is_empty());
}

#[test]
fn every_field_of_an_account_is_compared() {
    let local = account(1);
    let mut other = account(1);
    other.balance = (0, 101);
    other.code_hash = (6, 6);
    let mut err_buf = vec![];
    report_account(4, &ALICE, &LocalAccount::Known(local), None, &other, &mut err_buf);
    assert_eq!(err_buf.len(), 1);
    let (txn_idx, addr, diff) = state_mismatch(&err_buf[0]);
    assert_eq!((txn_idx, addr), (4, ALICE));
    let balance = diff.balance.unwrap();
    assert_eq!((balance.upstream, balance.local), ((0, 101), (0, 100)));
    let code_hash = diff.code_hash.unwrap();
    assert_eq!((code_hash.upstream, code_hash.local), ((6, 6), EMPTY_CODE_HASH));
    assert!(diff.nonce.is_none());

    let mut err_buf = vec![];
    report_account(4, &ALICE, &LocalAccount::Known(local), Some(EMPTY_TRIE_HASH), &local, &mut err_buf);
    assert!(err_buf.is_empty());
    report_account(4, &ALICE, &LocalAccount::Known(local), Some((7, 7)), &local, &mut err_buf);
    assert_eq!(err_buf.len(), 1);
    assert_eq!(
        root_mismatch(&err_buf[0]),
        (TrieType::Storage, TrieInitialOrFinal::Final, (7, 7), EMPTY_TRIE_HASH)
    );
}

fn known(account: LocalAccount) -> AccountRlp {
    match account {
        LocalAccount::Known(account) => account,
        LocalAccount::Hidden => panic!("the account is known"),
    }
}

#[test]
fn accounts_have_nothing_to_be_held_against_without_a_local_state() {
    let ir = [txn(6, roots(2))];
    let mut err_buf = vec![];
    let state = rpc_start(&ir);
    let traces = [touched(&[ALICE])];
    let state =
        rpc_step(state, block(roots(2), vec![]), &ir, &[], &traces, &mut err_buf).unwrap();
    let reply = RpcReply::Accounts(vec![account(1)]);
    let state = rpc_step(state, reply, &ir, &[], &traces, &mut err_buf).unwrap();
    assert!(matches!(state, RpcState::Done(fetched) if fetched.len() == 1));
    assert!(err_buf.is_empty());

    let state = RpcState::AwaitAccounts(6);
    let reply = RpcReply::Accounts(vec![]);
    let state = rpc_step(state, reply, &ir, &[], &[], &mut err_buf).unwrap();
    assert!(matches!(state, RpcState::Done(fetched) if fetched.is_empty()));
    assert!(err_buf.is_empty());
}

#[test]
fn account_in_a_part_that_is_not_held_is_not_compared() {
    let nibble = |addr: &Address| (hash_address(addr).0 >> 124) as usize;
    assert_ne!(nibble(&ALICE), nibble(&BOB));
    let mut children: [WrappedNode; 16] = Default::default();
    children[nibble(&ALICE)] = PartialTrie::Hash(eth_hash((9, 9))).into();
    let branch = PartialTrie::Branch { children, value: vec![] };
    let mut local = PartialTrieState { state: branch.clone(), storage: BTreeMap::new() };
    let (alice, _) = try_get_final_account(&local, &ALICE).unwrap();
    assert!(matches!(alice, LocalAccount::Hidden));
    let (bob, _) = try_get_final_account(&local, &BOB).unwrap();
    assert_eq!(known(bob).nonce, (0, 0));
    let upstream = vec![(ALICE, account(1)), (BOB, account(1))];
    let errs = find_accounts_that_differ(&local, 0, &upstream).unwrap();
    assert_eq!(errs.len(), 1);
    assert_eq!(state_mismatch(&errs[0]).1, BOB);
    local.storage.insert(hash_address(&ALICE), PartialTrie::Empty);
    let mut other_root = account(1);
    other_root.storage_root = (5, 5);
    let errs = find_accounts_that_differ(&local, 0, &vec![(ALICE, other_root)]).unwrap();
    assert_eq!(errs.len(), 1);
    assert_eq!(
        root_mismatch(&errs[0]),
        (TrieType::Storage, TrieInitialOrFinal::Final, EMPTY_TRIE_HASH, (5, 5))
    );

    let extension = |first: u128| PartialTrie::Extension {
        nibbles: EthNibbles { count: 3, packed: eth_word((0, first)) },
        child: PartialTrie::Hash(eth_hash((9, 9))).into(),
    };
    let start = hash_address(&ALICE).0 >> 116;
    assert!(check_is_hidden(&extension(start), &hash_address(&ALICE)));
    assert!(!check_is_hidden(&extension(start ^ 1), &hash_address(&ALICE)));
    assert!(!check_is_hidden(&PartialTrie::Empty, &hash_address(&ALICE)));
    assert!(check_is_hidden(&branch, &hash_address(&ALICE)));
    assert!(!check_is_hidden(&branch, &hash_address(&BOB)));
}

#[test]
fn account_without_a_node_was_never_used() {
    let mut local = accounts_only(&[(ALICE, account(1))]);
    let (unused, s_root) = try_get_final_account(&local, &BOB).unwrap();
    let unused = known(unused);
    assert_eq!((unused.nonce, unused.balance), ((0, 0), (0, 0)));
    assert_eq!((unused.storage_root, unused.code_hash), (EMPTY_TRIE_HASH, EMPTY_CODE_HASH));
    assert_eq!(s_root, None);
    local.storage.insert(hash_address(&ALICE), PartialTrie::Empty);
    let (alice, s_root) = try_get_final_account(&local, &ALICE).unwrap();
    assert_eq!(known(alice).nonce, (0, 1));
    assert_eq!(s_root, Some(EMPTY_TRIE_HASH));
    local.state.insert(nibbles(hash_address(&BOB)), vec![1u8]);
    assert!(try_get_final_account(&local, &BOB).is_none());
    assert!(find_accounts_that_differ(&local, 0, &vec![(BOB, account(1))]).is_none());
    assert!(find_accounts_that_differ(&local, 0, &vec![(ALICE, account(1))]).unwrap().is_empty());
}

#[test]
fn differing_roots_are_explained_in_order() {
    let ir = [txn(6, roots(2))];
    let states = [local_state(&[(ALICE, account(1), (0, 7))])];
    let mut err_buf = vec![];
    let state = rpc_start(&ir);
    let upstream = TrieRoots { receipts_root: (8, 8), ..roots(2) };
    let state =
        rpc_step(state, block(upstream, vec![(4, 4)]), &ir, &states, &[], &mut err_buf).unwrap();
    assert!(matches!(rpc_request(&state, &[]), Some(RpcRequest::Block(5))));
    assert!(err_buf.is_empty());
    let previous = TrieRoots { state_root: (7, 7), ..empty_roots() };
    let state =
        rpc_step(state, block(previous, vec![]), &ir, &states, &[], &mut err_buf).unwrap();
    match rpc_request(&state, &[]) {
        Some(RpcRequest::Replays(txn_hashes)) => assert_eq!(txn_hashes, vec![(4, 4)]),
        _ => panic!("replays are asked for"),
    }
    let replays = RpcReply::Replays(vec![reported(vec![(ALICE, nonce_reported(3))])]);
    let state = rpc_step(state, replays, &ir, &states, &[], &mut err_buf).unwrap();
    assert!(matches!(state, RpcState::AwaitAccounts(6)));
    assert_eq!(err_buf.len(), 3);
    assert_eq!(
        root_mismatch(&err_buf[0]),
        (TrieType::State, TrieInitialOrFinal::Initial, EMPTY_TRIE_HASH, (7, 7))
    );
    assert_eq!(
        root_mismatch(&err_buf[1]),
        (TrieType::Receipt, TrieInitialOrFinal::Final, (2, 3), (8, 8))
    );
    let (txn_idx, addr, _) = state_mismatch(&err_buf[2]);
    assert_eq!((txn_idx, addr), (0, ALICE));
    assert_eq!(conclude(err_buf).unwrap_err().errs.len(), 3);
}

#[test]
fn first_block_has_no_block_before_it() {
    let ir = [txn(0, roots(2))];
    let mut err_buf = vec![];
    let state = rpc_start(&ir);
    let state =
        rpc_step(state, block(roots(3), vec![(4, 4)]), &ir, &[], &[], &mut err_buf).unwrap();
    assert!(matches!(state, RpcState::AwaitReplays(0, _)));
    assert_eq!(err_buf.len(), 3);
    let replays = RpcReply::Replays(vec![reported(vec![])]);
    let state = rpc_step(state, replays, &ir, &[], &[], &mut err_buf).unwrap();
    assert!(matches!(state, RpcState::AwaitAccounts(0)));
    assert_eq!(err_buf.len(), 3);
}

#[test]
fn block_without_transactions_needs_no_checks() {
    let state = rpc_start(&[]);
    assert!(matches!(&state, RpcState::Done(paired) if paired.is_empty()));
    assert!(rpc_request(&state, &[]).is_none());
}

#[test]
fn replies_that_do_not_fit_stop_the_checks() {
    let ir = [txn(6, roots(2))];
    let states = [local_state(&[(ALICE, account(1), (0, 7))])];
    let mut err_buf = vec![];
    let state = RpcState::AwaitBlock(6);
    assert!(
        rpc_step(state, RpcReply::Replays(vec![]), &ir, &[], &[], &mut err_buf).is_none()
    );
    let state = RpcState::AwaitBlock(6);
    assert!(rpc_step(state, block(roots(1), vec![]), &[], &[], &[], &mut err_buf).is_none());
    let state = RpcState::AwaitReplays(6, vec![(4, 4), (5, 5)]);
    let replays = RpcReply::Replays(vec![reported(vec![]), reported(vec![])]);
    assert!(rpc_step(state, replays, &ir, &states, &[], &mut err_buf).is_none());
    let state = RpcState::AwaitReplays(6, vec![(4, 4)]);
    assert!(
        rpc_step(state, RpcReply::Replays(vec![]), &ir, &states, &[], &mut err_buf).is_none()
    );
    let state = RpcState::AwaitReplays(6, vec![(4, 4)]);
    let replays = RpcReply::Replays(vec![reported(vec![(BOB, nonce_reported(3))])]);
    assert!(rpc_step(state, replays, &ir, &states, &[], &mut err_buf).is_none());
    let mut too_long = txn(6, roots(2));
    too_long.state_trie = PartialTrie::Leaf {
        nibbles: EthNibbles { count: 65, packed: eth_word((0, 1)) },
        value: vec![],
    };
    let upstream = UpstreamBlock { roots: roots(3), txn_hashes: vec![(4, 4)] };
    let state = RpcState::AwaitPreviousBlock(6, upstream);
    assert!(
        rpc_step(state, block(roots(1), vec![]), &[too_long], &[], &[], &mut err_buf).is_none()
    );
    let state = RpcState::Done(vec![]);
    assert!(
        rpc_step(state, RpcReply::Accounts(vec![]), &ir, &[], &[], &mut err_buf).is_none()
    );
    assert!(err_buf.is_empty());
}

#[test]
fn every_address_needs_its_account() {
    let traces = [touched(&[BOB]), touched(&[BOB, ALICE])];
    let fetched = get_upstream_account_state_for_all_addresses_used_in_trace(
        &traces,
        &vec![account(1), account(2)],
    )
    .unwrap();
    assert_eq!(fetched.len(), 2);
    assert_eq!((fetched[0].0, fetched[0].1.nonce), (ALICE, (0, 1)));
    assert_eq!((fetched[1].0, fetched[1].1.nonce), (BOB, (0, 2)));
    for accounts in [vec![account(1)], vec![account(1), account(2), account(3)]] {
        assert!(get_upstream_account_state_for_all_addresses_used_in_trace(&traces, &accounts)
            .is_none());
        let ir = [txn(6, roots(2))];
        let states = [accounts_only(&[(ALICE, account(1)), (BOB, account(2))])];
        let mut err_buf = vec![];
        let state = RpcState::AwaitAccounts(6);
        let reply = RpcReply::Accounts(accounts);
        assert!(rpc_step(state, reply, &ir, &states, &traces, &mut err_buf).is_none());
        assert!(err_buf.is_empty());
    }
}

#[test]
fn replayed_changes_become_reported_values() {
    let mut storage = BTreeMap::new();
    storage.insert((0, 1), Change::Same);
    storage.insert((0, 2), Change::Altered((0, 20)));
    storage.insert((0, 3), Change::Born((0, 30)));
    storage.insert((0, 4), Change::Died);
    let entry = account_state_entry(
        &Change::Altered((0, 5)),
        &Change::Same,
        &Change::Born((0, 6)),
        &storage,
    );
    assert_eq!(entry.balance, Some((0, 5)));
    assert_eq!(entry.nonce, None);
    assert_eq!(entry.code_hash, Some((0, 6)));
    let slots: Vec<(H256, U256)> = entry.storage.unwrap().into_iter().collect();
    assert_eq!(slots, vec![((0, 2), (0, 20)), ((0, 3), (0, 30)), ((0, 4), (0, 0))]);
    let entry =
        account_state_entry(&Change::Died, &Change::Died, &Change::Died, &BTreeMap::new());
    assert_eq!((entry.balance, entry.nonce, entry.code_hash), (None, None, None));
    assert!(entry.storage.is_none());
}

#[test]
fn storage_roots_are_compared_for_accounts_with_written_storage() {
    let traces = [
        written(ALICE, Some(vec![(SLOT, (0, 1))])),
        written(BOB, Some(vec![])),
        written(BOB, None),
        written(ALICE, Some(vec![(OTHER_SLOT, (0, 0))])),
    ];
    let addrs = get_addresses_to_check(&traces);
    assert_eq!(addrs, vec![ALICE, ALICE]);
    let mut s_tries = BTreeMap::new();
    let mut err_buf = vec![];
    assert!(get_our_storage_roots(&s_tries, &addrs).is_none());
    assert!(!try_verify_all_upstream_storage_roots(
        &traces,
        &s_tries,
        &vec![(1, 1), (1, 1)],
        &mut err_buf
    ));
    assert!(err_buf.is_empty());
    s_tries.insert(hash_address(&ALICE), PartialTrie::Empty);
    assert_eq!(
        get_our_storage_roots(&s_tries, &addrs),
        Some(vec![EMPTY_TRIE_HASH, EMPTY_TRIE_HASH])
    );
    verify_all_upstream_storage_roots_match_our_storage_roots(
        &traces,
        &s_tries,
        &vec![EMPTY_TRIE_HASH, (1, 1)],
        &mut err_buf,
    );
    assert_eq!(err_buf.len(), 1);
    assert_eq!(
        root_mismatch(&err_buf[0]),
        (TrieType::Storage, TrieInitialOrFinal::Final, EMPTY_TRIE_HASH, (1, 1))
    );
    assert!(try_verify_all_upstream_storage_roots(
        &traces,
        &s_tries,
        &vec![EMPTY_TRIE_HASH, EMPTY_TRIE_HASH],
        &mut err_buf
    ));
    assert_eq!(err_buf.len(), 1);
}

#[test]
fn storage_trie_with_too_long_keys_has_no_root() {
    let mut s_tries = BTreeMap::new();
    s_tries.insert(
        hash_address(&ALICE),
        PartialTrie::Leaf {
            nibbles: EthNibbles { count: 65, packed: eth_word((0, 1)) },
            value: vec![],
        },
    );
    assert!(get_our_storage_roots(&s_tries, &vec![ALICE]).is_none());
}

#[test]
fn storage_roots_are_compared_pair_by_pair() {
    let mut err_buf = vec![];
    report_storage_roots_that_differ(
        &vec![(1, 1), (2, 2), (3, 3)],
        &vec![(1, 1), (4, 4)],
        &mut err_buf,
    );
    assert_eq!(err_buf.len(), 1);
    assert_eq!(
        root_mismatch(&err_buf[0]),
        (TrieType::Storage, TrieInitialOrFinal::Final, (2, 2), (4, 4))
    );
}

#[test]
fn verification_starts_upstream_checks_only_where_asked() {
    let image = PartialTriePreImages { state: PartialTrie::Empty, storage: BTreeMap::new() };
    let tries = PartialTriePreImages { state: PartialTrie::Empty, storage: BTreeMap::new() };
    let ir = [txn(6, roots(2))];
    let code = BTreeMap::new();
    let (err_buf, state) =
        begin_verification(&image, &code, &code, &[], &tries, &[], &ir, &[], true).unwrap();
    assert!(err_buf.is_empty());
    assert!(matches!(state, RpcState::AwaitBlock(6)));
    let (_, state) =
        begin_verification(&image, &code, &code, &[], &tries, &[], &ir, &[], false).unwrap();
    assert!(matches!(state, RpcState::Done(_)));
    let (_, state) =
        begin_verification(&image, &code, &code, &[], &tries, &[], &[], &[], true).unwrap();
    assert!(matches!(state, RpcState::Done(_)));
    let unreadable = || {
        let mut state = PartialTrie::default();
        state.insert(nibbles((1, 1)), vec![1u8]);
        state
    };
    let bad_image = PartialTriePreImages { state: unreadable(), storage: BTreeMap::new() };
    assert!(
        begin_verification(&bad_image, &code, &code, &[], &tries, &[], &ir, &[], true).is_none()
    );
    let bad_state = [PartialTrieState { state: unreadable(), storage: BTreeMap::new() }];
    assert!(
        begin_verification(&image, &code, &code, &[], &tries, &[], &ir, &bad_state, true)
            .is_none()
    );
}

#[test]
fn verification_reports_unused_leaves_and_missing_tries() {
    let mut state = PartialTrie::default();
    state.insert(nibbles(hash_address(&ALICE)), encode_account(&account(1)));
    let image = PartialTriePreImages { state: state.clone(), storage: BTreeMap::new() };
    let mut with_storage = account(2);
    with_storage.storage_root = (5, 5);
    let after = [accounts_only(&[(BOB, with_storage)])];
    let traces = [ProcessedTxnInfo {
        nodes_used_by_txn: NodesUsedByTxn {
            storage_accesses: vec![((64, hash_address(&BOB)), vec![])],
        },
        contract_code_accessed: BTreeMap::new(),
    }];
    let code = BTreeMap::new();
    let raw_traces = [touched(&[BOB])];
    let (err_buf, _) = begin_verification(
        &image, &code, &code, &raw_traces, &image, &traces, &[], &after, false,
    )
    .unwrap();
    assert_eq!(err_buf.len(), 2);
    match (&err_buf[0], &err_buf[1]) {
        (
            TraceVerificationError::UnusedStateNodesInPreImage(unused),
            TraceVerificationError::MissingStorageTrieForAccount(attempt, h_addr, root),
        ) => {
            assert_eq!(unused.len(), 1);
            assert_eq!(unused[0].hashed, (64, hash_address(&ALICE)));
            assert_eq!((attempt.0, *h_addr), (Some(BOB), (64, hash_address(&BOB))));
            assert_eq!(*root, (5, 5));
        }
        errs => panic!("{:?}", errs),
    }
    assert!(conclude(err_buf).is_err());
}
