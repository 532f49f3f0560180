//! What the findings of a verification say.

use crate::account_diff::{AccountStateEntryDiff, AccountStateEntryDiffView, ValueDiff};
use crate::errors::{
    views, HashedKeyAndUnhashedLookup, TraceVerificationError, TraceVerificationErrorView,
    TraceVerificationErrors,
};
use crate::reverse_hash::HashLookupAttempt;
use crate::text::{
    decimal, decimal_text, nibbles_are_held, nibbles_hex, nibbles_hex_text, word_numeral,
    word_numeral_text, HexText,
};
use crate::types::{StorageAddr, TrieInitialOrFinal, TrieType};
use vstd::prelude::*;

verus! {

impl<T: HexText> HashLookupAttempt<T> {
    /// What was found in hexadecimal, or that nothing is known.
    pub open spec fn shown(self) -> Seq<char> {
        match self.0 {
            Some(v) => v.hex(),
            None => "Unknown"@,
        }
    }

    /// What was found in hexadecimal, or that nothing is known.
    pub fn to_text(&self) -> (text: String)
        ensures
            text@ == self.shown(),
    {
        match &self.0 {
            Some(v) => v.to_hex(),
            None => "Unknown".to_owned(),
        }
    }
}

impl<K: HexText> HashedKeyAndUnhashedLookup<K> {
    /// The origin, then the hashed key as a number.
    pub open spec fn shown(self) -> Seq<char> {
        self.k.shown() + ", (hashed: "@ + word_numeral(self.hashed.1) + ")"@
    }

    /// The origin, then the hashed key as a number.
    pub fn to_text(&self) -> (text: String)
        ensures
            text@ == self.shown(),
    {
        let mut text = self.k.to_text();
        text.append(", (hashed: ");
        text.append(word_numeral_text(&self.hashed.1).as_str());
        text.append(")");
        text
    }

    /// All parts, one to a line, as an item of an indented list.
    pub open spec fn listed(self) -> Seq<char> {
        "    HashedKeyAndUnhashedLookup {\n        k: HashLookupAttempt(\n"@ + (match self.k.0 {
            Some(v) => "            Some(\n                0x"@ + v.hex() + ",\n            ),\n"@,
            None => "            None,\n"@,
        }) + "        ),\n        hashed: Nibbles {\n            count: "@ + decimal(
            self.hashed.0 as nat,
        ) + ",\n            packed: \""@ + nibbles_hex(self.hashed)
            + "\",\n        },\n    },\n"@
    }

    /// All parts, one to a line, as an item of an indented list.
    pub fn to_list_item(&self) -> (text: String)
        requires
            nibbles_are_held(self.hashed),
        ensures
            text@ == self.listed(),
    {
        let mut text =
            "    HashedKeyAndUnhashedLookup {\n        k: HashLookupAttempt(\n".to_owned();
        let origin = match &self.k.0 {
            Some(v) => {
                let mut origin = "            Some(\n                0x".to_owned();
                origin.append(v.to_hex().as_str());
                origin.append(",\n            ),\n");
                origin
            },
            None => "            None,\n".to_owned(),
        };
        text.append(origin.as_str());
        text.append("        ),\n        hashed: Nibbles {\n            count: ");
        text.append(decimal_text(self.hashed.0).as_str());
        text.append(",\n            packed: \"");
        text.append(nibbles_hex_text(&self.hashed).as_str());
        text.append("\",\n        },\n    },\n");
        text
    }
}

/// The items of a list, one after another.
pub open spec fn items_listed<K: HexText>(items: Seq<HashedKeyAndUnhashedLookup<K>>) -> Seq<char>
    decreases items.len(),
{
    if items.len() == 0 {
        Seq::empty()
    } else {
        items_listed(items.drop_last()) + items.last().listed()
    }
}

/// A list in brackets, one part of an item to a line.
pub open spec fn list_shown<K: HexText>(items: Seq<HashedKeyAndUnhashedLookup<K>>) -> Seq<char> {
    if items.len() == 0 {
        "[]"@
    } else {
        "[\n"@ + items_listed(items) + "]"@
    }
}

/// Whether all the hashed keys can be told.
pub open spec fn keys_are_held<K>(items: Seq<HashedKeyAndUnhashedLookup<K>>) -> bool {
    forall|i: int| 0 <= i < items.len() ==> nibbles_are_held((#[trigger] items[i]).hashed)
}

/// Tests whether all the hashed keys can be told.
fn check_keys_are_held<K>(items: &Vec<HashedKeyAndUnhashedLookup<K>>) -> (held: bool)
    ensures
        held == keys_are_held(items@),
{
    for i in 0..items.len()
        invariant
            forall|j: int| 0 <= j < i ==> nibbles_are_held((#[trigger] items@[j]).hashed),
    {
        if items[i].hashed.0 > 64 {
            assert(!nibbles_are_held(items@[i as int].hashed));
            return false;
        }
    }
    true
}

/// A list in brackets, one part of an item to a line.
pub fn list_to_text<K: HexText>(items: &Vec<HashedKeyAndUnhashedLookup<K>>) -> (text: String)
    requires
        keys_are_held(items@),
    ensures
        text@ == list_shown(items@),
{
    if items.len() == 0 {
        return "[]".to_owned();
    }
    let mut listed = String::new();
    for i in 0..items.len()
        invariant
            keys_are_held(items@),
            listed@ == items_listed(items@.take(i as int)),
    {
        assert(items@.take(i + 1).drop_last() == items@.take(i as int));
        listed.append(items[i].to_list_item().as_str());
    }
    assert(items@.take(items@.len() as int) == items@);
    let mut text = "[\n".to_owned();
    text.append(listed.as_str());
    text.append("]");
    text
}

impl TrieInitialOrFinal {
    /// In words.
    pub open spec fn shown(self) -> Seq<char> {
        match self {
            TrieInitialOrFinal::Initial => "initial"@,
            TrieInitialOrFinal::Final => "final"@,
        }
    }

    /// In words.
    pub fn to_text(&self) -> (text: String)
        ensures
            text@ == self.shown(),
    {
        match self {
            TrieInitialOrFinal::Initial => "initial".to_owned(),
            TrieInitialOrFinal::Final => "final".to_owned(),
        }
    }
}

impl TrieType {
    /// In words.
    pub open spec fn shown(self) -> Seq<char> {
        match self {
            TrieType::State => "state"@,
            TrieType::Storage => "storage"@,
            TrieType::Receipt => "receipt"@,
            TrieType::Txn => "transaction"@,
        }
    }

    /// In words.
    pub fn to_text(&self) -> (text: String)
        ensures
            text@ == self.shown(),
    {
        match self {
            TrieType::State => "state".to_owned(),
            TrieType::Storage => "storage".to_owned(),
            TrieType::Receipt => "receipt".to_owned(),
            TrieType::Txn => "transaction".to_owned(),
        }
    }
}

impl ValueDiff {
    /// Both values in hexadecimal.
    pub open spec fn shown(self) -> Seq<char> {
        " (upstream: 0x"@ + word_numeral(self.upstream) + ", local: 0x"@ + word_numeral(self.local)
            + ")"@
    }

    /// Both values in hexadecimal.
    pub fn to_text(&self) -> (text: String)
        ensures
            text@ == self.shown(),
    {
        let mut text = " (upstream: 0x".to_owned();
        text.append(word_numeral_text(&self.upstream).as_str());
        text.append(", local: 0x");
        text.append(word_numeral_text(&self.local).as_str());
        text.append(")");
        text
    }
}

/// A part of an account with its two values; nothing where they do not differ.
pub open spec fn part_shown(name: Seq<char>, diff: Option<ValueDiff>) -> Seq<char> {
    match diff {
        Some(diff) => name + diff.shown(),
        None => Seq::empty(),
    }
}

/// The slots that differ, each with its two values.
pub open spec fn slots_shown(slots: Seq<(StorageAddr, ValueDiff)>) -> Seq<char>
    decreases slots.len(),
{
    if slots.len() == 0 {
        Seq::empty()
    } else {
        slots_shown(slots.drop_last()) + " slot 0x"@ + slots.last().0.hex()
            + slots.last().1.shown()
    }
}

impl AccountStateEntryDiffView {
    /// The parts that differ, each with its two values.
    pub open spec fn shown(self) -> Seq<char> {
        "account"@ + part_shown(" balance"@, self.balance) + part_shown(" nonce"@, self.nonce)
            + part_shown(" code hash"@, self.code_hash) + slots_shown(self.storage)
    }
}

fn part_to_text(name: &str, diff: &Option<ValueDiff>) -> (text: String)
    ensures
        text@ == part_shown(name@, *diff),
{
    match diff {
        Some(diff) => {
            let mut text = name.to_owned();
            text.append(diff.to_text().as_str());
            text
        },
        None => String::new(),
    }
}

impl AccountStateEntryDiff {
    /// The parts that differ, each with its two values.
    pub fn to_text(&self) -> (text: String)
        ensures
            text@ == self@.shown(),
    {
        let mut slots = String::new();
        for i in 0..self.storage.len()
            invariant
                slots@ == slots_shown(self.storage@.take(i as int)),
        {
            assert(self.storage@.take(i + 1).drop_last() == self.storage@.take(i as int));
            slots.append(" slot 0x");
            slots.append(self.storage[i].0.to_hex().as_str());
            slots.append(self.storage[i].1.to_text().as_str());
        }
        assert(self.storage@.take(self.storage@.len() as int) == self.storage@);
        let mut text = "account".to_owned();
        text.append(part_to_text(" balance", &self.balance).as_str());
        text.append(part_to_text(" nonce", &self.nonce).as_str());
        text.append(part_to_text(" code hash", &self.code_hash).as_str());
        text.append(slots.as_str());
        text
    }
}

impl TraceVerificationErrorView {
    /// Whether the hashed keys that the message tells can be told.
    pub open spec fn can_be_shown(self) -> bool {
        match self {
            TraceVerificationErrorView::MissingStorageTrieForAccount(_, h_addr, _) => nibbles_are_held(
                h_addr,
            ),
            TraceVerificationErrorView::MissingContractCodeForAccount(_, h_addr, _) => nibbles_are_held(
                h_addr,
            ),
            TraceVerificationErrorView::UnusedStateNodesInPreImage(unused) => keys_are_held(unused),
            TraceVerificationErrorView::UnusedStorageNodesInPreImage(unused) => keys_are_held(unused),
            _ => true,
        }
    }

    /// The message.
    pub open spec fn shown(self) -> Seq<char> {
        match self {
            TraceVerificationErrorView::MissingStorageTrieForAccount(attempt, h_addr, root) => {
                "No storage trie supplied for storage root "@ + root.hex()
                    + " which is referenced by account "@ + attempt.shown() + " (hashed: "@
                    + nibbles_hex(h_addr) + ")"@
            },
            TraceVerificationErrorView::MissingContractCodeForAccount(attempt, h_addr, code_hash) => {
                "No contract bytecode supplied for code hash "@ + code_hash.hex()
                    + " which is referenced by account "@ + attempt.shown() + " (hashed: "@
                    + nibbles_hex(h_addr) + ")"@
            },
            TraceVerificationErrorView::DecoderTrieRootMismatch(trie_type, when, ours, upstream) => {
                "The decoder calculated a different "@ + when.shown()
                    + " trie root that the upstream block trace provider (eg. full-node) arrived at (type: "@
                    + trie_type.shown() + ", decoder: "@ + ours.hex() + ", upstream: "@
                    + upstream.hex() + ")"@
            },
            TraceVerificationErrorView::UnusedStateNodesInPreImage(unused) => {
                "Pre-image had state nodes that are not referenced by the trace: "@ + list_shown(
                    unused,
                )
            },
            TraceVerificationErrorView::UnusedStorageNodesInPreImage(unused) => {
                "Pre-image had storage nodes that are not referenced by the trace: "@ + list_shown(
                    unused,
                )
            },
            TraceVerificationErrorView::AccountStateMismatch(txn_idx, addr, diff) => {
                "Local account state was different from upstream: (txn_idx: "@ + decimal(
                    txn_idx as nat,
                ) + ", Address: "@ + addr.hex() + ", diff: "@ + diff.shown()
            },
        }
    }
}

impl TraceVerificationError {
    /// Tests whether the hashed keys that the message tells can be told.
    pub fn check_can_be_shown(&self) -> (showable: bool)
        ensures
            showable == self@.can_be_shown(),
    {
        match self {
            TraceVerificationError::MissingStorageTrieForAccount(_, h_addr, _) => h_addr.0 <= 64,
            TraceVerificationError::MissingContractCodeForAccount(_, h_addr, _) => h_addr.0 <= 64,
            TraceVerificationError::UnusedStateNodesInPreImage(unused) => check_keys_are_held(
                unused,
            ),
            TraceVerificationError::UnusedStorageNodesInPreImage(unused) => check_keys_are_held(
                unused,
            ),
            _ => true,
        }
    }

    /// The message.
    pub fn to_text(&self) -> (text: String)
        requires
            self@.can_be_shown(),
        ensures
            text@ == self@.shown(),
    {
        match self {
            TraceVerificationError::MissingStorageTrieForAccount(attempt, h_addr, root) => {
                let mut text = "No storage trie supplied for storage root ".to_owned();
                text.append(root.to_hex().as_str());
                text.append(" which is referenced by account ");
                text.append(attempt.to_text().as_str());
                text.append(" (hashed: ");
                text.append(nibbles_hex_text(h_addr).as_str());
                text.append(")");
                text
            },
            TraceVerificationError::MissingContractCodeForAccount(attempt, h_addr, code_hash) => {
                let mut text = "No contract bytecode supplied for code hash ".to_owned();
                text.append(code_hash.to_hex().as_str());
                text.append(" which is referenced by account ");
                text.append(attempt.to_text().as_str());
                text.append(" (hashed: ");
                text.append(nibbles_hex_text(h_addr).as_str());
                text.append(")");
                text
            },
            TraceVerificationError::DecoderTrieRootMismatch(trie_type, when, ours, upstream) => {
                let mut text = "The decoder calculated a different ".to_owned();
                text.append(when.to_text().as_str());
                text.append(
                    " trie root that the upstream block trace provider (eg. full-node) arrived at (type: ",
                );
                text.append(trie_type.to_text().as_str());
                text.append(", decoder: ");
                text.append(ours.to_hex().as_str());
                text.append(", upstream: ");
                text.append(upstream.to_hex().as_str());
                text.append(")");
                text
            },
            TraceVerificationError::UnusedStateNodesInPreImage(unused) => {
                let mut text =
                    "Pre-image had state nodes that are not referenced by the trace: ".to_owned();
                text.append(list_to_text(unused).as_str());
                text
            },
            TraceVerificationError::UnusedStorageNodesInPreImage(unused) => {
                let mut text =
                    "Pre-image had storage nodes that are not referenced by the trace: ".to_owned();
                text.append(list_to_text(unused).as_str());
                text
            },
            TraceVerificationError::AccountStateMismatch(txn_idx, addr, diff) => {
                let mut text =
                    "Local account state was different from upstream: (txn_idx: ".to_owned();
                text.append(decimal_text(*txn_idx).as_str());
                text.append(", Address: ");
                text.append(addr.to_hex().as_str());
                text.append(", diff: ");
                text.append(diff.to_text().as_str());
                text
            },
        }
    }
}

/// The messages, a line each.
pub open spec fn lines_shown(errs: Seq<TraceVerificationErrorView>) -> Seq<char>
    decreases errs.len(),
{
    if errs.len() == 0 {
        "The following verification errors occurred:\n"@
    } else {
        lines_shown(errs.drop_last()) + errs.last().shown() + "\n"@
    }
}

/// Whether the hashed keys that the messages tell can be told.
pub open spec fn all_can_be_shown(errs: Seq<TraceVerificationErrorView>) -> bool {
    forall|i: int| 0 <= i < errs.len() ==> (#[trigger] errs[i]).can_be_shown()
}

impl TraceVerificationErrors {
    /// A heading, then the message of each error in a line of its own.
    pub open spec fn shown(self) -> Seq<char> {
        lines_shown(views(self.errs@))
    }

    /// Tests whether the hashed keys that the messages tell can be told.
    pub fn check_can_be_shown(&self) -> (showable: bool)
        ensures
            showable == all_can_be_shown(views(self.errs@)),
    {
        let ghost errs = views(self.errs@);
        for i in 0..self.errs.len()
            invariant
                errs == views(self.errs@),
                forall|j: int| 0 <= j < i ==> (#[trigger] errs[j]).can_be_shown(),
        {
            assert(errs[i as int] == self.errs@[i as int]@);
            if !self.errs[i].check_can_be_shown() {
                return false;
            }
        }
        true
    }

    /// A heading, then the message of each error in a line of its own.
    pub fn to_text(&self) -> (text: String)
        requires
            all_can_be_shown(views(self.errs@)),
        ensures
            text@ == self.shown(),
    {
        let ghost errs = views(self.errs@);
        let mut text = "The following verification errors occurred:\n".to_owned();
        for i in 0..self.errs.len()
            invariant
                errs == views(self.errs@),
                all_can_be_shown(errs),
                text@ == lines_shown(errs.take(i as int)),
        {
            assert(errs[i as int] == self.errs@[i as int]@);
            assert(errs.take(i + 1).drop_last() == errs.take(i as int));
            text.append(self.errs[i].to_text().as_str());
            text.append("\n");
        }
        assert(errs.take(errs.len() as int) == errs);
        text
    }
}

} // verus!
