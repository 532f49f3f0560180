//! What the findings say.

use eth_trie_utils::partial_trie::Nibbles as EthNibbles;
use trace_verification::account_diff::{AccountStateEntryDiff, ValueDiff};
use trace_verification::errors::{
    HashedKeyAndUnhashedLookup, TraceVerificationError, TraceVerificationErrors,
};
use trace_verification::messages::list_to_text;
use trace_verification::reverse_hash::HashLookupAttempt;
use trace_verification::text::{
    decimal_text, hex_digits_text, nibbles_hex_text, word_numeral_text, HexText,
};
use trace_verification::types::{Address, Nibbles, TrieInitialOrFinal, TrieType, H256};

const ADDR: Address = (0x0a0b0c0d, 0x1f);
const WORD: H256 = (0xab, 0x0123456789abcdef);
const ADDR_HEX: &str = "0a0b0c0d0000000000000000000000000000001f";
const WORD_HEX: &str = "000000000000000000000000000000ab00000000000000000123456789abcdef";

fn eth_word(word: (u128, u128)) -> ethereum_types::U256 {
    (ethereum_types::U256::from(word.0) << 128) + ethereum_types::U256::from(word.1)
}

fn eth_nibbles(key: Nibbles) -> EthNibbles {
    EthNibbles { count: key.0, packed: eth_word(key.1) }
}

#[test]
fn numbers_in_text() {
    assert_eq!(decimal_text(0), "0");
    assert_eq!(decimal_text(9), "9");
    assert_eq!(decimal_text(10), "10");
    assert_eq!(decimal_text(1234567890), "1234567890");
    assert_eq!(hex_digits_text(0xabc, 5), "00abc");
    assert_eq!(hex_digits_text(0xabc, 2), "bc");
    assert_eq!(hex_digits_text(0xabc, 0), "");
    for word in [(0, 0), (0, 0xff), (0, u128::MAX), (1, 0), (u128::MAX, 5)] {
        assert_eq!(word_numeral_text(&word), format!("{:x}", eth_word(word)));
    }
}

#[test]
fn hashes_and_addresses_in_text() {
    assert_eq!(ADDR.to_hex(), ADDR_HEX);
    assert_eq!(WORD.to_hex(), WORD_HEX);
    let addr = ethereum_types::H160::from_low_u64_be(0x1234);
    assert_eq!((0u32, 0x1234u128).to_hex(), format!("{:x}", addr));
    let word = ethereum_types::H256::from_low_u64_be(0x1234);
    assert_eq!((0u128, 0x1234u128).to_hex(), format!("{:x}", word));
}

#[test]
fn keys_in_text() {
    for key in [
        (0, (0, 0)),
        (1, (0, 0xa)),
        (3, (0, 0x0ab)),
        (32, (0, u128::MAX)),
        (33, (1, 2)),
        (63, (0x0fff, 7)),
        (64, (u128::MAX, 7)),
    ] {
        assert_eq!(nibbles_hex_text(&key), format!("{:x}", eth_nibbles(key)));
    }
    assert_eq!(nibbles_hex_text(&(4, (0, 0xab))), "0x00ab");
}

#[test]
fn lookups_in_text() {
    assert_eq!(HashLookupAttempt(Some(ADDR)).to_text(), ADDR_HEX);
    assert_eq!(HashLookupAttempt(Some(WORD)).to_text(), WORD_HEX);
    assert_eq!(HashLookupAttempt::<Address>(None).to_text(), "Unknown");
    let key = (64, (0, 0x1f));
    let found = HashedKeyAndUnhashedLookup { k: HashLookupAttempt(Some(ADDR)), hashed: key };
    assert_eq!(found.to_text(), format!("{}, (hashed: {})", ADDR_HEX, eth_nibbles(key)));
    assert_eq!(found.to_text(), format!("{}, (hashed: 1f)", ADDR_HEX));
    let unknown: HashedKeyAndUnhashedLookup<H256> =
        HashedKeyAndUnhashedLookup { k: HashLookupAttempt(None), hashed: key };
    assert_eq!(unknown.to_text(), "Unknown, (hashed: 1f)");
}

#[test]
fn kinds_in_text() {
    assert_eq!(TrieInitialOrFinal::Initial.to_text(), "initial");
    assert_eq!(TrieInitialOrFinal::Final.to_text(), "final");
    assert_eq!(TrieType::State.to_text(), "state");
    assert_eq!(TrieType::Storage.to_text(), "storage");
    assert_eq!(TrieType::Receipt.to_text(), "receipt");
    assert_eq!(TrieType::Txn.to_text(), "transaction");
}

#[test]
fn missing_parts_in_text() {
    let key = (64, WORD);
    let err = TraceVerificationError::MissingStorageTrieForAccount(
        HashLookupAttempt(Some(ADDR)),
        key,
        WORD,
    );
    assert_eq!(
        err.to_text(),
        format!(
            "No storage trie supplied for storage root {} which is referenced by account {} \
             (hashed: 0x{})",
            WORD_HEX, ADDR_HEX, WORD_HEX
        )
    );
    let err = TraceVerificationError::MissingContractCodeForAccount(
        HashLookupAttempt(None),
        key,
        WORD,
    );
    assert_eq!(
        err.to_text(),
        format!(
            "No contract bytecode supplied for code hash {} which is referenced by account \
             Unknown (hashed: 0x{})",
            WORD_HEX, WORD_HEX
        )
    );
}

#[test]
fn root_mismatch_in_text() {
    let err = TraceVerificationError::DecoderTrieRootMismatch(
        TrieType::Receipt,
        TrieInitialOrFinal::Final,
        WORD,
        (0, 1),
    );
    assert_eq!(
        err.to_text(),
        format!(
            "The decoder calculated a different final trie root that the upstream block trace \
             provider (eg. full-node) arrived at (type: receipt, decoder: {}, upstream: {:064x})",
            WORD_HEX, 1
        )
    );
}

#[test]
fn state_mismatch_in_text() {
    let diff = AccountStateEntryDiff {
        balance: Some(ValueDiff { upstream: (0, 0x10), local: (0, 0x20) }),
        nonce: None,
        code_hash: None,
        storage: vec![(WORD, ValueDiff { upstream: (0, 1), local: (0, 0) })],
    };
    assert_eq!(
        diff.to_text(),
        format!(
            "account balance (upstream: 0x10, local: 0x20) slot 0x{} (upstream: 0x1, local: 0x0)",
            WORD_HEX
        )
    );
    let err = TraceVerificationError::AccountStateMismatch(12, ADDR, diff.clone());
    assert_eq!(
        err.to_text(),
        format!(
            "Local account state was different from upstream: (txn_idx: 12, Address: {}, diff: {}",
            ADDR_HEX,
            diff.to_text()
        )
    );
    let diff = AccountStateEntryDiff {
        balance: None,
        nonce: Some(ValueDiff { upstream: (0, 1), local: (0, 2) }),
        code_hash: Some(ValueDiff { upstream: (0, 3), local: (0, 4) }),
        storage: vec![],
    };
    assert_eq!(
        diff.to_text(),
        "account nonce (upstream: 0x1, local: 0x2) code hash (upstream: 0x3, local: 0x4)"
    );
}

#[test]
fn unused_nodes_in_text() {
    let unused = vec![
        HashedKeyAndUnhashedLookup { k: HashLookupAttempt(Some(WORD)), hashed: (64, WORD) },
        HashedKeyAndUnhashedLookup { k: HashLookupAttempt(None), hashed: (3, (0, 0xabc)) },
    ];
    let listed = format!(
        "[\n    HashedKeyAndUnhashedLookup {{\n        k: HashLookupAttempt(\n            Some(\n                0x{},\n            ),\n        ),\n        hashed: Nibbles {{\n            count: 64,\n            packed: \"0x{}\",\n        }},\n    }},\n    HashedKeyAndUnhashedLookup {{\n        k: HashLookupAttempt(\n            None,\n        ),\n        hashed: Nibbles {{\n            count: 3,\n            packed: \"0xabc\",\n        }},\n    }},\n]",
        WORD_HEX, WORD_HEX
    );
    assert_eq!(list_to_text(&unused), listed);
    assert_eq!(list_to_text::<Address>(&vec![]), "[]");
    let err = TraceVerificationError::UnusedStorageNodesInPreImage(unused);
    assert_eq!(
        err.to_text(),
        format!("Pre-image had storage nodes that are not referenced by the trace: {}", listed)
    );
    assert_eq!(
        TraceVerificationError::UnusedStateNodesInPreImage(vec![]).to_text(),
        "Pre-image had state nodes that are not referenced by the trace: []"
    );
}

#[test]
fn list_is_laid_out_as_debug_output_is() {
    #[derive(Debug)]
    #[allow(dead_code)]
    struct HashLookupAttempt(Option<ethereum_types::H160>);
    #[derive(Debug)]
    #[allow(dead_code)]
    struct HashedKeyAndUnhashedLookup {
        k: HashLookupAttempt,
        hashed: EthNibbles,
    }
    let key = (5, (0, 0x12345));
    let shown = format!(
        "{:#?}",
        vec![
            HashedKeyAndUnhashedLookup {
                k: HashLookupAttempt(Some(ethereum_types::H160::from_low_u64_be(0x77))),
                hashed: eth_nibbles(key),
            },
            HashedKeyAndUnhashedLookup { k: HashLookupAttempt(None), hashed: eth_nibbles(key) },
        ]
    );
    let unused: Vec<trace_verification::errors::HashedKeyAndUnhashedLookup<Address>> = vec![
        trace_verification::errors::HashedKeyAndUnhashedLookup {
            k: trace_verification::reverse_hash::HashLookupAttempt(Some((0, 0x77))),
            hashed: key,
        },
        trace_verification::errors::HashedKeyAndUnhashedLookup {
            k: trace_verification::reverse_hash::HashLookupAttempt(None),
            hashed: key,
        },
    ];
    assert_eq!(list_to_text(&unused), shown);
}

#[test]
fn all_errors_in_text() {
    let none = TraceVerificationErrors { errs: vec![] };
    assert_eq!(none.to_text(), "The following verification errors occurred:\n");
    let err = TraceVerificationError::MissingStorageTrieForAccount(
        HashLookupAttempt(None),
        (64, WORD),
        WORD,
    );
    let message = err.to_text();
    let two = TraceVerificationErrors { errs: vec![err.clone(), err] };
    assert_eq!(
        two.to_text(),
        format!("The following verification errors occurred:\n{}\n{}\n", message, message)
    );
}

#[test]
fn copies_say_the_same() {
    let unused = HashedKeyAndUnhashedLookup { k: HashLookupAttempt(Some(ADDR)), hashed: (64, WORD) };
    let diff = AccountStateEntryDiff {
        balance: None,
        nonce: None,
        code_hash: None,
        storage: vec![(WORD, ValueDiff { upstream: (0, 1), local: (0, 0) })],
    };
    for err in [
        TraceVerificationError::MissingContractCodeForAccount(
            HashLookupAttempt(Some(ADDR)),
            (64, WORD),
            WORD,
        ),
        TraceVerificationError::DecoderTrieRootMismatch(
            TrieType::Txn,
            TrieInitialOrFinal::Initial,
            WORD,
            WORD,
        ),
        TraceVerificationError::UnusedStateNodesInPreImage(vec![unused]),
        TraceVerificationError::UnusedStorageNodesInPreImage(vec![]),
        TraceVerificationError::AccountStateMismatch(3, ADDR, diff),
    ] {
        assert_eq!(err.clone().to_text(), err.to_text());
    }
}

#[test]
fn keys_with_more_nibbles_than_they_hold_cannot_be_shown() {
    let good = TraceVerificationError::MissingStorageTrieForAccount(
        HashLookupAttempt(None),
        (64, WORD),
        WORD,
    );
    assert!(good.check_can_be_shown());
    let bad = TraceVerificationError::MissingContractCodeForAccount(
        HashLookupAttempt(None),
        (65, WORD),
        WORD,
    );
    assert!(!bad.check_can_be_shown());
    let bad = TraceVerificationError::UnusedStateNodesInPreImage(vec![
        HashedKeyAndUnhashedLookup { k: HashLookupAttempt(None), hashed: (65, WORD) },
    ]);
    assert!(!bad.check_can_be_shown());
    let errs = TraceVerificationErrors { errs: vec![good.clone(), bad] };
    assert!(!errs.check_can_be_shown());
    assert!(TraceVerificationErrors { errs: vec![good] }.check_can_be_shown());
}
