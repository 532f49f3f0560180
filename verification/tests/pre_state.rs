//! The checks of the tries before a block.

use eth_trie_utils::partial_trie::Nibbles as EthNibbles;
use eth_trie_utils::partial_trie::PartialTrie;
use rlp::RlpStream;
use std::collections::BTreeMap;
use std::collections::BTreeSet;
use trace_verification::after_txn::verify_states_after_each_txn;
use trace_verification::codec::{hash_address, hash_slot};
use trace_verification::errors::{conclude, TraceVerificationError};
use trace_verification::prestate::{
    find_missing_contract_code, find_missing_storage_tries,
    try_verify_all_prestate_storage_entries, try_verify_all_referenced_code,
    verify_all_prestate_storage_entries_point_to_existing_tries,
    verify_all_referenced_code_exists_in_code_mapping, verify_pre_state,
};
use trace_verification::reverse_hash::{
    create_addr_to_hashed_addr_mapping, HashLookupAttempt, PartialTriePreImages,
};
use trace_verification::trace::{
    get_all_contract_code_hashes_that_are_accessed, get_all_storage_tries_that_are_accessed,
    get_all_unique_addrs_used_in_trace, NodesUsedByTxn, ProcessedTxnInfo, TxnInfo, TxnTrace,
};
use trace_verification::txn_state::PartialTrieState;
use trace_verification::types::{
    AccountRlp, Address, Nibbles, EMPTY_CODE_HASH, EMPTY_TRIE_HASH, H256,
};
use trace_verification::unused::{collect_leaves_reached, verify_all_pre_image_nodes_are_used};

const ALICE: Address = (1, 1);
const BOB: Address = (2, 2);
const CAROL: Address = (3, 3);

const CODE: H256 = (0xc0de, 0xc0de);
const ROOT: H256 = (0x5007, 0x5007);

fn eth_word(word: (u128, u128)) -> ethereum_types::U256 {
    (ethereum_types::U256::from(word.0) << 128) + ethereum_types::U256::from(word.1)
}

fn eth_hash(word: (u128, u128)) -> ethereum_types::H256 {
    let mut bytes = [0u8; 32];
    eth_word(word).to_big_endian(&mut bytes);
    ethereum_types::H256(bytes)
}

fn account(storage_root: H256, code_hash: H256) -> AccountRlp {
    AccountRlp { nonce: (0, 1), balance: (0, 2), storage_root, code_hash }
}

fn encode_account(account: &AccountRlp) -> Vec<u8> {
    let mut stream = RlpStream::new_list(4);
    stream.append(&eth_word(account.nonce));
    stream.append(&eth_word(account.balance));
    stream.append(&eth_hash(account.storage_root));
    stream.append(&eth_hash(account.code_hash));
    stream.out().to_vec()
}

fn state(accounts: &[(Address, AccountRlp)]) -> PartialTrie {
    let mut trie = PartialTrie::default();
    for (addr, account) in accounts {
        trie.insert(
            EthNibbles::from_h256_be(eth_hash(hash_address(addr))),
            encode_account(account),
        );
    }
    trie
}

fn pre_image(accounts: &[(Address, AccountRlp)]) -> PartialTriePreImages {
    PartialTriePreImages { state: state(accounts), storage: BTreeMap::new() }
}

fn touched(addrs: &[Address]) -> TxnInfo {
    let mut traces = BTreeMap::new();
    for addr in addrs {
        traces.insert(*addr, TxnTrace { storage_read: None, storage_written: None });
    }
    TxnInfo { traces }
}

fn processed(storage: &[H256], code: &[H256]) -> ProcessedTxnInfo {
    ProcessedTxnInfo {
        nodes_used_by_txn: NodesUsedByTxn {
            storage_accesses: storage.iter().map(|hash| ((64, *hash), vec![])).collect(),
        },
        contract_code_accessed: code.iter().map(|hash| (*hash, vec![])).collect(),
    }
}

fn key(addr: &Address) -> Nibbles {
    (64, hash_address(addr))
}

fn code(hashes: &[H256]) -> BTreeMap<H256, Vec<u8>> {
    hashes.iter().map(|hash| (*hash, vec![1u8])).collect()
}

fn storage_trie(slots: &[H256]) -> PartialTrie {
    let mut trie = PartialTrie::default();
    for slot in slots {
        trie.insert(EthNibbles::from_h256_be(eth_hash(hash_slot(slot))), vec![1u8]);
    }
    trie
}

#[test]
fn complete_pre_state_passes() {
    let image = pre_image(&[(ALICE, account(ROOT, CODE))]);
    let mut tries = pre_image(&[(ALICE, account(ROOT, CODE))]);
    tries.storage.insert(hash_address(&ALICE), PartialTrie::Empty);
    let found = verify_pre_state(
        &image,
        &code(&[CODE]),
        &[touched(&[ALICE])],
        &tries,
        &[processed(&[hash_address(&ALICE)], &[CODE])],
    )
    .unwrap();
    assert!(found.is_empty());
    assert!(conclude(found).is_ok());
}

#[test]
fn storage_trie_is_looked_for_under_the_hashed_address() {
    let accounts = [(ALICE, account(ROOT, EMPTY_CODE_HASH))];
    let image = pre_image(&accounts);
    let mapping = create_addr_to_hashed_addr_mapping(&image, &[touched(&[ALICE])]);
    let reached = [processed(&[hash_address(&ALICE)], &[])];

    let mut err_buf = vec![];
    verify_all_prestate_storage_entries_point_to_existing_tries(
        &image,
        &reached,
        &mapping,
        &mut err_buf,
    );
    assert_eq!(err_buf.len(), 1);
    match &err_buf[0] {
        TraceVerificationError::MissingStorageTrieForAccount(attempt, h_addr, root) => {
            assert_eq!(attempt.0, Some(ALICE));
            assert_eq!(*h_addr, key(&ALICE));
            assert_eq!(*root, ROOT);
        }
        err => panic!("{:?}", err),
    }

    let mut under_root = pre_image(&accounts);
    under_root.storage.insert(ROOT, PartialTrie::Empty);
    let mut err_buf = vec![];
    assert!(try_verify_all_prestate_storage_entries(
        &under_root,
        &reached,
        &mapping,
        &mut err_buf
    ));
    assert_eq!(err_buf.len(), 1);

    let mut supplied = pre_image(&accounts);
    supplied.storage.insert(hash_address(&ALICE), PartialTrie::Empty);
    let mut err_buf = vec![];
    assert!(try_verify_all_prestate_storage_entries(&supplied, &reached, &mapping, &mut err_buf));
    assert!(try_verify_all_prestate_storage_entries(
        &image,
        &[processed(&[ROOT], &[])],
        &mapping,
        &mut err_buf
    ));
    assert!(err_buf.is_empty());
}

#[test]
fn missing_code_is_reported_before_missing_storage_and_unused_nodes() {
    let accounts = [(ALICE, account(ROOT, CODE)), (BOB, account(EMPTY_TRIE_HASH, CODE))];
    let image = pre_image(&accounts);
    let tries = pre_image(&accounts);
    let found = verify_pre_state(
        &image,
        &BTreeMap::new(),
        &[touched(&[ALICE])],
        &tries,
        &[processed(&[], &[CODE]), processed(&[hash_address(&ALICE)], &[])],
    )
    .unwrap();
    assert_eq!(found.len(), 4);
    let mut without_code = BTreeSet::new();
    for err in &found[..2] {
        match err {
            TraceVerificationError::MissingContractCodeForAccount(attempt, h_addr, code_hash) => {
                assert_eq!(*code_hash, CODE);
                without_code.insert((attempt.0, *h_addr));
            }
            _ => panic!("{:?}", err),
        }
    }
    let mut expected = BTreeSet::new();
    expected.insert((Some(ALICE), key(&ALICE)));
    expected.insert((None, key(&BOB)));
    assert_eq!(without_code, expected);
    match &found[2] {
        TraceVerificationError::MissingStorageTrieForAccount(attempt, h_addr, root) => {
            assert_eq!(attempt.0, Some(ALICE));
            assert_eq!(*h_addr, key(&ALICE));
            assert_eq!(*root, ROOT);
        }
        err => panic!("{:?}", err),
    }
    match &found[3] {
        TraceVerificationError::UnusedStateNodesInPreImage(unused) => {
            assert_eq!(unused.len(), 1);
            assert_eq!((unused[0].k.0, unused[0].hashed), (None, key(&BOB)));
        }
        err => panic!("{:?}", err),
    }
    assert_eq!(conclude(found).unwrap_err().errs.len(), 4);
}

#[test]
fn what_the_block_does_not_need_is_not_reported_as_missing() {
    let accounts = [(ALICE, account(ROOT, CODE))];
    let found = verify_pre_state(
        &pre_image(&accounts),
        &BTreeMap::new(),
        &[touched(&[ALICE])],
        &pre_image(&accounts),
        &[processed(&[(0, 1)], &[(0, 1)])],
    )
    .unwrap();
    assert!(found.is_empty());
}

#[test]
fn accounts_without_code_or_storage_need_none() {
    let accounts = [(ALICE, account(EMPTY_TRIE_HASH, EMPTY_CODE_HASH))];
    let found = verify_pre_state(
        &pre_image(&accounts),
        &BTreeMap::new(),
        &[touched(&[ALICE])],
        &pre_image(&accounts),
        &[processed(&[hash_address(&ALICE)], &[EMPTY_CODE_HASH])],
    )
    .unwrap();
    assert!(found.is_empty());
}

#[test]
fn unused_state_nodes_are_reported_together() {
    let image = pre_image(&[
        (ALICE, account(EMPTY_TRIE_HASH, EMPTY_CODE_HASH)),
        (BOB, account(EMPTY_TRIE_HASH, EMPTY_CODE_HASH)),
        (CAROL, account(EMPTY_TRIE_HASH, EMPTY_CODE_HASH)),
    ]);
    let mapping = create_addr_to_hashed_addr_mapping(&image, &[touched(&[BOB])]);
    let mut err_buf = vec![];
    verify_all_pre_image_nodes_are_used(&mapping, &mut err_buf);
    assert_eq!(err_buf.len(), 1);
    let mut expected = vec![key(&ALICE), key(&CAROL)];
    expected.sort();
    match &err_buf[0] {
        TraceVerificationError::UnusedStateNodesInPreImage(unused) => {
            let keys: Vec<Nibbles> = unused.iter().map(|item| item.hashed).collect();
            assert_eq!(keys, expected);
            assert!(unused.iter().all(|item| item.k.0.is_none()));
        }
        err => panic!("{:?}", err),
    }
    let mapping = create_addr_to_hashed_addr_mapping(&image, &[touched(&[BOB, ALICE, CAROL])]);
    let mut err_buf = vec![];
    verify_all_pre_image_nodes_are_used(&mapping, &mut err_buf);
    assert!(err_buf.is_empty());
}

#[test]
fn unused_storage_nodes_are_reported() {
    let accounts = [
        (ALICE, account(ROOT, EMPTY_CODE_HASH)),
        (BOB, account(ROOT, EMPTY_CODE_HASH)),
    ];
    let mut image = pre_image(&accounts);
    image.storage.insert(hash_address(&ALICE), storage_trie(&[(0, 1), (0, 2), (0, 3)]));
    let mut traces = BTreeMap::new();
    traces.insert(ALICE, TxnTrace { storage_read: Some(vec![(0, 1)]), storage_written: None });
    traces.insert(BOB, TxnTrace { storage_read: Some(vec![(0, 2)]), storage_written: None });
    let raw_traces = [TxnInfo { traces }];
    let found =
        verify_pre_state(&image, &BTreeMap::new(), &raw_traces, &image, &[]).unwrap();
    assert_eq!(found.len(), 2);
    match (&found[0], &found[1]) {
        (
            TraceVerificationError::UnusedStorageNodesInPreImage(unknown),
            TraceVerificationError::UnusedStorageNodesInPreImage(misplaced),
        ) => {
            assert_eq!(unknown.len(), 1);
            assert_eq!((unknown[0].k.0, unknown[0].hashed), (None, (64, hash_slot(&(0, 3)))));
            assert_eq!(misplaced.len(), 1);
            assert_eq!(
                (misplaced[0].k.0, misplaced[0].hashed),
                (Some((0, 2)), (64, hash_slot(&(0, 2))))
            );
        }
        errs => panic!("{:?}", errs),
    }
    let reached = collect_leaves_reached(&raw_traces);
    assert_eq!(reached.len(), 2);
    assert!(reached.contains(&(hash_address(&ALICE), hash_slot(&(0, 1)))));
    assert!(reached.contains(&(hash_address(&BOB), hash_slot(&(0, 2)))));
}

#[test]
fn accounts_need_code_and_storage_after_each_transaction() {
    let after = |with_storage: bool| {
        let mut storage = BTreeMap::new();
        if with_storage {
            storage.insert(hash_address(&ALICE), PartialTrie::Empty);
        }
        PartialTrieState {
            state: state(&[
                (ALICE, account(ROOT, EMPTY_CODE_HASH)),
                (BOB, account(EMPTY_TRIE_HASH, CODE)),
            ]),
            storage,
        }
    };
    let traces = [
        processed(&[hash_address(&ALICE)], &[]),
        processed(&[], &[CODE]),
    ];
    let raw_traces = [touched(&[ALICE]), touched(&[BOB])];
    let none = BTreeMap::new();
    let found = verify_states_after_each_txn(
        &[after(true), after(false)],
        &traces,
        &none,
        &none,
        &raw_traces,
    )
    .unwrap();
    assert_eq!(found.len(), 2);
    match (&found[0], &found[1]) {
        (
            TraceVerificationError::MissingContractCodeForAccount(bob, bob_key, code_hash),
            TraceVerificationError::MissingStorageTrieForAccount(alice, alice_key, root),
        ) => {
            assert_eq!((bob.0, *bob_key, *code_hash), (Some(BOB), key(&BOB), CODE));
            assert_eq!((alice.0, *alice_key, *root), (Some(ALICE), key(&ALICE), ROOT));
        }
        errs => panic!("{:?}", errs),
    }
    for (supplied, created) in [(code(&[CODE]), code(&[])), (code(&[]), code(&[CODE]))] {
        let found = verify_states_after_each_txn(
            &[after(true), after(true)],
            &traces,
            &supplied,
            &created,
            &raw_traces,
        )
        .unwrap();
        assert!(found.is_empty());
    }
    let mut unreadable = after(true);
    unreadable.state.insert(EthNibbles::from_h256_be(eth_hash((7, 7))), vec![1u8]);
    assert!(
        verify_states_after_each_txn(&[unreadable], &traces, &none, &none, &raw_traces).is_none()
    );
}

#[test]
fn pre_state_that_cannot_be_read_is_not_checked() {
    let good = [(ALICE, account(ROOT, CODE))];
    let none = BTreeMap::new();
    let mut bytes_in_state = pre_image(&good);
    bytes_in_state
        .state
        .insert(EthNibbles::from_h256_be(eth_hash((7, 7))), vec![1u8]);
    assert!(verify_pre_state(&bytes_in_state, &none, &[], &pre_image(&good), &[]).is_none());
    assert!(verify_pre_state(&pre_image(&good), &none, &[], &bytes_in_state, &[]).is_none());

    let mut short_key = pre_image(&good);
    short_key.state = PartialTrie::Leaf {
        nibbles: EthNibbles { count: 62, packed: eth_word((0, 1)) },
        value: encode_account(&good[0].1),
    };
    assert!(verify_pre_state(&short_key, &none, &[], &pre_image(&good), &[]).is_none());

    let mut short_slot = pre_image(&good);
    short_slot.storage.insert(
        (1, 1),
        PartialTrie::Leaf {
            nibbles: EthNibbles { count: 2, packed: eth_word((0, 1)) },
            value: vec![1u8],
        },
    );
    assert!(verify_pre_state(&short_slot, &none, &[], &pre_image(&good), &[]).is_none());

    let mut short_access = processed(&[], &[]);
    short_access.nodes_used_by_txn.storage_accesses.push(((3, (0, 1)), vec![]));
    assert!(
        verify_pre_state(&pre_image(&good), &none, &[], &pre_image(&good), &[short_access])
            .is_none()
    );

    let stranger = pre_image(&[(BOB, account(ROOT, EMPTY_CODE_HASH))]);
    assert!(
        verify_pre_state(
            &pre_image(&good),
            &none,
            &[],
            &stranger,
            &[processed(&[hash_address(&BOB)], &[])],
        )
        .is_none()
    );
}

#[test]
fn key_of_odd_length_makes_up_a_hash() {
    let odd: H256 = (0x0123 << 108, 5);
    let image = PartialTriePreImages {
        state: PartialTrie::Leaf {
            nibbles: EthNibbles { count: 63, packed: eth_word(odd) },
            value: encode_account(&account(EMPTY_TRIE_HASH, CODE)),
        },
        storage: BTreeMap::new(),
    };
    let found = verify_pre_state(
        &image,
        &BTreeMap::new(),
        &[],
        &pre_image(&[]),
        &[processed(&[], &[CODE])],
    )
    .unwrap();
    assert_eq!(found.len(), 2);
    match &found[0] {
        TraceVerificationError::MissingContractCodeForAccount(attempt, h_addr, _) => {
            assert_eq!(attempt.0, None);
            assert_eq!(*h_addr, (63, odd));
        }
        err => panic!("{:?}", err),
    }
    assert!(matches!(&found[1], TraceVerificationError::UnusedStateNodesInPreImage(unused)
        if unused.len() == 1 && unused[0].hashed == (63, odd)));
}

#[test]
fn checks_add_to_what_was_reported_before() {
    let accounts = [(ALICE, account(ROOT, CODE))];
    let image = pre_image(&accounts);
    let traces = [processed(&[hash_address(&ALICE)], &[CODE])];
    let mapping = create_addr_to_hashed_addr_mapping(&image, &[touched(&[ALICE])]);
    let mut err_buf = vec![];
    verify_all_prestate_storage_entries_point_to_existing_tries(
        &image,
        &traces,
        &mapping,
        &mut err_buf,
    );
    assert_eq!(err_buf.len(), 1);
    verify_all_referenced_code_exists_in_code_mapping(
        &image.state,
        &traces,
        &BTreeMap::new(),
        &mapping,
        &mut err_buf,
    );
    assert_eq!(err_buf.len(), 2);
    assert!(matches!(
        err_buf[0],
        TraceVerificationError::MissingStorageTrieForAccount(_, _, ROOT)
    ));
    assert!(matches!(
        err_buf[1],
        TraceVerificationError::MissingContractCodeForAccount(_, _, CODE)
    ));
}

#[test]
fn accounts_whose_origin_was_not_looked_up_stop_the_search() {
    let accounts = vec![((64, (9, 9)), account(ROOT, CODE))];
    let mut accessed = BTreeSet::new();
    accessed.insert((9, 9));
    accessed.insert(CODE);
    let supplied = BTreeSet::new();
    let mut addrs: BTreeMap<Nibbles, HashLookupAttempt<Address>> = BTreeMap::new();
    assert!(
        find_missing_storage_tries(&accounts, &accessed, &BTreeMap::new(), &addrs).is_none()
    );
    assert!(
        find_missing_contract_code(&accounts, &accessed, &supplied, &addrs).is_none()
    );
    addrs.insert((64, (9, 9)), HashLookupAttempt(Some(CAROL)));
    let errs =
        find_missing_storage_tries(&accounts, &accessed, &BTreeMap::new(), &addrs).unwrap();
    assert_eq!(errs.len(), 1);
    match &errs[0] {
        TraceVerificationError::MissingStorageTrieForAccount(attempt, h_addr, root) => {
            assert_eq!(attempt.0, Some(CAROL));
            assert_eq!(*h_addr, (64, (9, 9)));
            assert_eq!(*root, ROOT);
        }
        err => panic!("{:?}", err),
    }
    let errs =
        find_missing_contract_code(&accounts, &accessed, &supplied, &addrs).unwrap();
    assert_eq!(errs.len(), 1);
    match &errs[0] {
        TraceVerificationError::MissingContractCodeForAccount(attempt, h_addr, code_hash) => {
            assert_eq!(attempt.0, Some(CAROL));
            assert_eq!(*h_addr, (64, (9, 9)));
            assert_eq!(*code_hash, CODE);
        }
        err => panic!("{:?}", err),
    }
}

#[test]
fn hashed_keys_are_traced_back_to_their_origins() {
    let mut image = pre_image(&[
        (ALICE, account(ROOT, CODE)),
        (BOB, account(ROOT, CODE)),
    ]);
    let mut storage = PartialTrie::default();
    for slot in [(0, 1), (0, 2), (0, 3)] {
        storage.insert(EthNibbles::from_h256_be(eth_hash(hash_slot(&slot))), vec![1u8]);
    }
    image.storage.insert(hash_address(&ALICE), storage);
    let mut written = BTreeMap::new();
    written.insert((0, 2), (0, 9));
    let mut traces = BTreeMap::new();
    traces.insert(
        ALICE,
        TxnTrace { storage_read: Some(vec![(0, 1)]), storage_written: Some(written) },
    );
    let mapping = create_addr_to_hashed_addr_mapping(&image, &[TxnInfo { traces }]);
    assert_eq!(mapping.hashed_addr_to_addr.len(), 2);
    assert_eq!(mapping.hashed_addr_to_addr[&key(&ALICE)].0, Some(ALICE));
    assert_eq!(mapping.hashed_addr_to_addr[&key(&BOB)].0, None);
    assert_eq!(mapping.hashed_slot_to_slot.len(), 3);
    assert_eq!(mapping.hashed_slot_to_slot[&(64, hash_slot(&(0, 1)))].0, Some((0, 1)));
    assert_eq!(mapping.hashed_slot_to_slot[&(64, hash_slot(&(0, 2)))].0, Some((0, 2)));
    assert_eq!(mapping.hashed_slot_to_slot[&(64, hash_slot(&(0, 3)))].0, None);
}

#[test]
fn accesses_are_gathered_over_all_transactions() {
    let traces = [
        processed(&[(0, 1), (0, 2)], &[(1, 1)]),
        processed(&[(0, 2)], &[(1, 2), (1, 1)]),
        processed(&[], &[]),
    ];
    let storage: Vec<H256> =
        get_all_storage_tries_that_are_accessed(&traces).into_iter().collect();
    assert_eq!(storage, vec![(0, 1), (0, 2)]);
    let code: Vec<H256> =
        get_all_contract_code_hashes_that_are_accessed(&traces).into_iter().collect();
    assert_eq!(code, vec![(1, 1), (1, 2)]);
    assert!(get_all_contract_code_hashes_that_are_accessed(&[]).is_empty());
    let addrs: Vec<Address> =
        get_all_unique_addrs_used_in_trace(&[touched(&[BOB, ALICE]), touched(&[ALICE])])
            .into_iter()
            .collect();
    assert_eq!(addrs, vec![ALICE, BOB]);
}

#[test]
fn checks_that_cannot_be_made_report_nothing() {
    let mut bytes_in_state = pre_image(&[(ALICE, account(ROOT, CODE))]);
    let mapping = create_addr_to_hashed_addr_mapping(&bytes_in_state, &[]);
    bytes_in_state.state.insert(EthNibbles::from_h256_be(eth_hash((7, 7))), vec![1u8]);
    let traces = [processed(&[hash_address(&ALICE)], &[CODE])];
    let mut err_buf = vec![];
    assert!(!try_verify_all_prestate_storage_entries(
        &bytes_in_state,
        &traces,
        &mapping,
        &mut err_buf
    ));
    assert!(!try_verify_all_referenced_code(
        &bytes_in_state.state,
        &traces,
        &BTreeMap::new(),
        &mapping,
        &mut err_buf
    ));
    assert!(err_buf.is_empty());
}
