//! Digests, encodings, tries and the plain values of the library.

use eth_trie_utils::partial_trie::Nibbles as EthNibbles;
use eth_trie_utils::partial_trie::PartialTrie;
use rlp::RlpStream;
use std::collections::BTreeMap;
use std::collections::BTreeSet;
use trace_verification::codec::{
    assemble_account, decode_account, decode_storage_value, hash, hash_address, hash_slot,
};
use trace_verification::order::{insert_keys, keys_in_order, members_in_order};
use trace_verification::trie::{
    check_keys_fit, decode_leaves, get_leaf_vals_from_trie, get_leaf_vals_from_trie_and_decode,
    keep_leaves, trie_get, trie_root,
};
use trace_verification::types::{
    bytes_of_address, bytes_of_hash, copy_items, hash_of_nibbles, words_equal, AccountRlp,
    AccountRlpWrapper, EMPTY_CODE_HASH, EMPTY_TRIE_HASH, H256,
};

fn eth_word(word: (u128, u128)) -> ethereum_types::U256 {
    (ethereum_types::U256::from(word.0) << 128) + ethereum_types::U256::from(word.1)
}

fn eth_hash(word: (u128, u128)) -> ethereum_types::H256 {
    let mut bytes = [0u8; 32];
    eth_word(word).to_big_endian(&mut bytes);
    ethereum_types::H256(bytes)
}

fn nibbles(hash: H256) -> EthNibbles {
    EthNibbles::from_h256_be(eth_hash(hash))
}

fn encode_account(account: &AccountRlp) -> Vec<u8> {
    let mut stream = RlpStream::new_list(4);
    stream.append(&eth_word(account.nonce));
    stream.append(&eth_word(account.balance));
    stream.append(&eth_hash(account.storage_root));
    stream.append(&eth_hash(account.code_hash));
    stream.out().to_vec()
}

fn account() -> AccountRlp {
    AccountRlp {
        nonce: (0, 7),
        balance: (1, 2),
        storage_root: (3, 4),
        code_hash: (5, 6),
    }
}

fn wrapped(account: AccountRlp) -> AccountRlpWrapper {
    AccountRlpWrapper::from(account)
}

#[test]
fn digest_of_nothing_is_the_empty_code_hash() {
    assert_eq!(hash(&[]), EMPTY_CODE_HASH);
}

#[test]
fn digests_of_zero_address_and_zero_slot() {
    assert_eq!(
        hash_address(&(0, 0)),
        (0x5380c7b7ae81a58eb98d9c78de4a1fd7, 0xfd9535fc953ed2be602daaa41767312a)
    );
    assert_eq!(
        hash_slot(&(0, 0)),
        (0x290decd9548b62a8d60345a988386fc8, 0x4ba6bc95484008f6362f93160ef3e563)
    );
}

#[test]
fn bytes_come_most_significant_first() {
    let addr = (0x01020304, 0x05060708090a0b0c0d0e0f1011121314);
    let expected: Vec<u8> = (1..=20).collect();
    assert_eq!(bytes_of_address(&addr), expected);
    let word = (0x000102030405060708090a0b0c0d0e0f, 0x101112131415161718191a1b1c1d1e1f);
    let expected: Vec<u8> = (0..32).collect();
    assert_eq!(bytes_of_hash(&word), expected);
}

#[test]
fn hash_address_digests_the_twenty_bytes() {
    let addr = (0x01020304, 0x05060708090a0b0c0d0e0f1011121314);
    let bytes: Vec<u8> = (1..=20).collect();
    assert_eq!(hash_address(&addr), hash(&bytes));
}

#[test]
fn account_is_read_back_from_its_encoding() {
    let read = decode_account(&encode_account(&account())).unwrap();
    assert!(wrapped(read) == wrapped(account()));
}

#[test]
fn no_account_is_read_from_other_bytes() {
    assert!(decode_account(&[]).is_none());
    assert!(decode_account(&[0x80]).is_none());
    let mut stream = RlpStream::new_list(3);
    stream.append(&eth_word((0, 7)));
    stream.append(&eth_word((1, 2)));
    stream.append(&eth_hash((3, 4)));
    assert!(decode_account(&stream.out()).is_none());
    let mut stream = RlpStream::new_list(4);
    stream.append(&eth_word((0, 7)));
    stream.append(&eth_word((1, 2)));
    stream.append(&eth_word((3, 4)));
    stream.append(&"short");
    assert!(decode_account(&stream.out()).is_none());
}

#[test]
fn account_needs_all_four_fields() {
    let read = assemble_account(Some((0, 7)), Some((1, 2)), Some((3, 4)), Some((5, 6))).unwrap();
    assert!(wrapped(read) == wrapped(account()));
    assert!(assemble_account(None, Some((1, 2)), Some((3, 4)), Some((5, 6))).is_none());
    assert!(assemble_account(Some((0, 7)), None, Some((3, 4)), Some((5, 6))).is_none());
    assert!(assemble_account(Some((0, 7)), Some((1, 2)), None, Some((5, 6))).is_none());
    assert!(assemble_account(Some((0, 7)), Some((1, 2)), Some((3, 4)), None).is_none());
}

#[test]
fn storage_value_is_read_back_from_its_encoding() {
    assert_eq!(decode_storage_value(&rlp::encode(&eth_word((0, 0x1234)))), Some((0, 0x1234)));
    assert_eq!(decode_storage_value(&[0x82, 0x12, 0x34]), Some((0, 0x1234)));
    assert_eq!(decode_storage_value(&rlp::encode(&eth_word((9, 8)))), Some((9, 8)));
    assert_eq!(decode_storage_value(&[0xc0]), None);
}

#[test]
fn wrapped_accounts_are_compared_field_by_field() {
    let a = wrapped(account());
    assert!(a.clone() == a);
    let mut other = account();
    other.nonce = (0, 8);
    assert!(a != wrapped(other));
    let mut other = account();
    other.balance = (1, 3);
    assert!(a != wrapped(other));
    let mut other = account();
    other.storage_root = (0, 4);
    assert!(a != wrapped(other));
    let mut other = account();
    other.code_hash = (5, 7);
    assert!(a != wrapped(other));
}

#[test]
fn words_are_equal_in_both_halves() {
    assert!(words_equal(&(1, 2), &(1, 2)));
    assert!(!words_equal(&(1, 2), &(1, 3)));
    assert!(!words_equal(&(1, 2), &(0, 2)));
    assert_eq!(copy_items(&vec![3u8, 1, 2]), vec![3u8, 1, 2]);
    assert_eq!(hash_of_nibbles(&(64, (1, 2))), (1, 2));
    assert_eq!(hash_of_nibbles(&(63, (1, 2))), (1, 2));
}

#[test]
fn keys_are_listed_in_ascending_order() {
    let mut map: BTreeMap<(u128, u128), u8> = BTreeMap::new();
    map.insert((1, 0), 0);
    map.insert((0, 9), 1);
    map.insert((0, 3), 2);
    assert_eq!(keys_in_order(&map), vec![(0, 3), (0, 9), (1, 0)]);
    let mut set: BTreeSet<(u128, u128)> = BTreeSet::new();
    set.insert((0, 4));
    insert_keys(&mut set, &map);
    assert_eq!(members_in_order(&set), vec![(0, 3), (0, 4), (0, 9), (1, 0)]);
}

#[test]
fn empty_trie_has_the_empty_root() {
    assert_eq!(trie_root(&PartialTrie::Empty), EMPTY_TRIE_HASH);
}

#[test]
fn root_of_a_single_leaf_is_the_digest_of_its_node() {
    let key = (0x11, 0x22);
    let mut trie = PartialTrie::default();
    trie.insert(nibbles(key), vec![1u8, 2, 3]);
    let mut path = vec![0x20u8];
    path.extend(bytes_of_hash(&key));
    let mut stream = RlpStream::new_list(2);
    stream.append(&path);
    stream.append(&vec![1u8, 2, 3]);
    assert_eq!(trie_root(&trie), hash(&stream.out()));
}

#[test]
fn values_are_found_under_their_keys() {
    let mut trie = PartialTrie::default();
    trie.insert(nibbles((1, 2)), vec![1u8, 2, 3]);
    trie.insert(nibbles((1, 3)), vec![4u8]);
    assert_eq!(trie_get(&trie, &(1, 2)), Some(vec![1u8, 2, 3]));
    assert_eq!(trie_get(&trie, &(1, 3)), Some(vec![4u8]));
    assert_eq!(trie_get(&trie, &(2, 3)), None);
    assert_eq!(trie_get(&PartialTrie::Empty, &(1, 2)), None);
}

#[test]
fn leaves_are_listed_and_hashes_are_not() {
    let mut trie = PartialTrie::default();
    trie.insert(nibbles((1, 3)), vec![4u8]);
    trie.insert(nibbles((1, 2)), vec![1u8, 2, 3]);
    trie.insert(nibbles((1 << 127, 0)), eth_hash((5, 5)));
    let leaves = get_leaf_vals_from_trie(&trie);
    assert_eq!(
        leaves,
        vec![((64, (1, 2)), vec![1u8, 2, 3]), ((64, (1, 3)), vec![4u8])]
    );
}

#[test]
fn only_entries_with_a_value_are_kept() {
    let kept = keep_leaves(vec![
        ((64, (0, 1)), Some(vec![1u8])),
        ((64, (0, 2)), None),
        ((64, (0, 3)), Some(vec![])),
    ]);
    assert_eq!(kept, vec![((64, (0, 1)), vec![1u8]), ((64, (0, 3)), vec![])]);
}

#[test]
fn accounts_are_listed_with_their_keys() {
    let mut trie = PartialTrie::default();
    trie.insert(nibbles((1, 2)), encode_account(&account()));
    let decoded = get_leaf_vals_from_trie_and_decode(&trie).unwrap();
    assert_eq!(decoded.len(), 1);
    assert_eq!(decoded[0].0, (64, (1, 2)));
    assert!(wrapped(decoded[0].1) == wrapped(account()));
    trie.insert(nibbles((1, 3)), vec![4u8]);
    assert!(get_leaf_vals_from_trie_and_decode(&trie).is_none());
    assert!(decode_leaves(&vec![((64, (0, 1)), vec![4u8])]).is_none());
    assert!(decode_leaves(&vec![]).unwrap().is_empty());
}

#[test]
fn keys_longer_than_a_hash_do_not_fit() {
    let leaf = |count: usize| PartialTrie::Leaf {
        nibbles: EthNibbles { count, packed: eth_word((0, 1)) },
        value: vec![1u8],
    };
    let extension = |count: usize, child: PartialTrie| PartialTrie::Extension {
        nibbles: EthNibbles { count, packed: eth_word((0, 1)) },
        child: child.into(),
    };
    assert!(check_keys_fit(&leaf(64)));
    assert!(!check_keys_fit(&leaf(65)));
    assert!(check_keys_fit(&extension(30, leaf(34))));
    assert!(!check_keys_fit(&extension(30, leaf(35))));
    assert!(check_keys_fit(&PartialTrie::Hash(eth_hash((1, 1)))));
    let mut trie = PartialTrie::default();
    trie.insert(nibbles((1, 2)), vec![1u8]);
    trie.insert(nibbles((2, 2)), vec![2u8]);
    assert!(check_keys_fit(&trie));
    assert!(!check_keys_fit(&extension(1, trie)));
    assert!(get_leaf_vals_from_trie_and_decode(&leaf(65)).is_none());
}
