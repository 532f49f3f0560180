//! What the messages say.

use crate::account_diff::{AccountStateEntryDiffView, ValueDiff};
use crate::errors::{
    views, HashedKeyAndUnhashedLookup, TraceVerificationErrorView, TraceVerificationErrors,
};
use crate::messages::{
    all_can_be_shown, items_listed, lines_shown, list_shown, part_shown, slots_shown,
};
use crate::reverse_hash::HashLookupAttempt;
use crate::text::{decimal, nibbles_hex, word_numeral, HexText};
use crate::types::{
    AccountRlp, AccountRlpWrapper, Address, CodeHash, Nibbles, StorageAddr, TrieInitialOrFinal,
    TrieRootHash, TrieType, TxnIdx,
};
use vstd::prelude::*;
use vstd::std_specs::convert::FromSpec;

verus! {

/// An attempt holds what it was made of, and a wrapped account is the account.
pub proof fn law_made_of_what_was_given<T>(found: Option<T>, account: AccountRlp)
    ensures
        HashLookupAttempt::<T>::from_spec(found).0 == found,
        AccountRlpWrapper::from_spec(account).0 == account,
{
}

/// An origin is told in hexadecimal, or as unknown; a hashed key beside its origin as a number.
pub proof fn law_origins_in_words<K: HexText>(item: HashedKeyAndUnhashedLookup<K>, origin: K)
    ensures
        HashLookupAttempt(Some(origin)).shown() == origin.hex(),
        HashLookupAttempt::<K>(None).shown() == "Unknown"@,
        item.shown() == item.k.shown() + ", (hashed: "@ + word_numeral(item.hashed.1) + ")"@,
{
}

/// The names of the tries and of the two times at which roots are compared.
pub proof fn law_names_in_words()
    ensures
        TrieInitialOrFinal::Initial.shown() == "initial"@,
        TrieInitialOrFinal::Final.shown() == "final"@,
        TrieType::State.shown() == "state"@,
        TrieType::Storage.shown() == "storage"@,
        TrieType::Receipt.shown() == "receipt"@,
        TrieType::Txn.shown() == "transaction"@,
{
}

/// A missing storage trie is told with the root and the account that names it, a missing code
/// likewise with the code hash.
pub proof fn law_missing_parts_in_words(
    attempt: HashLookupAttempt<Address>,
    key: Nibbles,
    root: TrieRootHash,
    code_hash: CodeHash,
)
    ensures
        ({
            let account = " which is referenced by account "@ + attempt.shown() + " (hashed: "@
                + nibbles_hex(key) + ")"@;
            &&& TraceVerificationErrorView::MissingStorageTrieForAccount(attempt, key, root).shown()
                == "No storage trie supplied for storage root "@ + root.hex() + account
            &&& TraceVerificationErrorView::MissingContractCodeForAccount(
                attempt,
                key,
                code_hash,
            ).shown() == "No contract bytecode supplied for code hash "@ + code_hash.hex() + account
        }),
{
    let account = " which is referenced by account "@ + attempt.shown() + " (hashed: "@
        + nibbles_hex(key) + ")"@;
    assert(TraceVerificationErrorView::MissingStorageTrieForAccount(attempt, key, root).shown()
        =~= "No storage trie supplied for storage root "@ + root.hex() + account);
    assert(TraceVerificationErrorView::MissingContractCodeForAccount(
        attempt,
        key,
        code_hash,
    ).shown() =~= "No contract bytecode supplied for code hash "@ + code_hash.hex() + account);
}

/// Roots that differ are told with the time, the trie, the local root and then the upstream root.
pub proof fn law_roots_in_words(
    of: TrieType,
    when: TrieInitialOrFinal,
    ours: TrieRootHash,
    upstream: TrieRootHash,
)
    ensures
        ({
            let text = TraceVerificationErrorView::DecoderTrieRootMismatch(
                of,
                when,
                ours,
                upstream,
            ).shown();
            let start = "The decoder calculated a different "@ + when.shown();
            let end = ", decoder: "@ + ours.hex() + ", upstream: "@ + upstream.hex() + ")"@;
            text == start
                + " trie root that the upstream block trace provider (eg. full-node) arrived at (type: "@
                + of.shown() + end
        }),
{
    let text = TraceVerificationErrorView::DecoderTrieRootMismatch(of, when, ours, upstream).shown();
    let start = "The decoder calculated a different "@ + when.shown();
    let end = ", decoder: "@ + ours.hex() + ", upstream: "@ + upstream.hex() + ")"@;
    assert(text =~= start
        + " trie root that the upstream block trace provider (eg. full-node) arrived at (type: "@
        + of.shown() + end);
}

/// Unused nodes are told as a list.
pub proof fn law_unused_nodes_in_words(
    state: Seq<HashedKeyAndUnhashedLookup<Address>>,
    storage: Seq<HashedKeyAndUnhashedLookup<StorageAddr>>,
)
    ensures
        TraceVerificationErrorView::UnusedStateNodesInPreImage(state).shown()
            == "Pre-image had state nodes that are not referenced by the trace: "@ + list_shown(
            state,
        ),
        TraceVerificationErrorView::UnusedStorageNodesInPreImage(storage).shown()
            == "Pre-image had storage nodes that are not referenced by the trace: "@ + list_shown(
            storage,
        ),
{
}

/// An account that differs is told with the transaction, the address and what differs.
pub proof fn law_accounts_in_words(
    txn_idx: TxnIdx,
    addr: Address,
    diff: AccountStateEntryDiffView,
)
    ensures
        ({
            let start = "Local account state was different from upstream: (txn_idx: "@ + decimal(
                txn_idx as nat,
            );
            TraceVerificationErrorView::AccountStateMismatch(txn_idx, addr, diff).shown() == start
                + ", Address: "@ + addr.hex() + ", diff: "@ + diff.shown()
        }),
{
}

/// Of an account the balance, the nonce, the code hash and the slots are told, in this order, each
/// where it differs; nothing is told of the rest.
pub proof fn law_differences_in_words(
    diff: AccountStateEntryDiffView,
    values: ValueDiff,
    name: Seq<char>,
    slots: Seq<(StorageAddr, ValueDiff)>,
    slot: StorageAddr,
)
    ensures
        ({
            let fields = "account"@ + part_shown(" balance"@, diff.balance) + part_shown(
                " nonce"@,
                diff.nonce,
            ) + part_shown(" code hash"@, diff.code_hash);
            diff.shown() == fields + slots_shown(diff.storage)
        }),
        part_shown(name, None).len() == 0,
        part_shown(name, Some(values)) == name + values.shown(),
        values.shown() == " (upstream: 0x"@ + word_numeral(values.upstream) + ", local: 0x"@
            + word_numeral(values.local) + ")"@,
        slots_shown(Seq::empty()).len() == 0,
        slots_shown(slots.push((slot, values))) == slots_shown(slots) + (" slot 0x"@ + slot.hex())
            + values.shown(),
{
    assert(slots.push((slot, values)).drop_last() =~= slots);
    assert(slots_shown(slots.push((slot, values))) =~= slots_shown(slots) + (" slot 0x"@
        + slot.hex()) + values.shown());
}

/// A list stands in brackets, with its items in their order.
pub proof fn law_lists_in_words<K: HexText>(
    items: Seq<HashedKeyAndUnhashedLookup<K>>,
    item: HashedKeyAndUnhashedLookup<K>,
)
    ensures
        list_shown(Seq::<HashedKeyAndUnhashedLookup<K>>::empty()) == "[]"@,
        items.len() > 0 ==> list_shown(items) == "[\n"@ + items_listed(items) + "]"@,
        items_listed(Seq::<HashedKeyAndUnhashedLookup<K>>::empty()).len() == 0,
        items_listed(items.push(item)) == items_listed(items) + item.listed(),
{
    assert(items.push(item).drop_last() =~= items);
}

/// An item of a list tells the origin, then how many nibbles the key has and which.
pub proof fn law_items_in_words<K: HexText>(item: HashedKeyAndUnhashedLookup<K>)
    ensures
        ({
            let start = "    HashedKeyAndUnhashedLookup {\n        k: HashLookupAttempt(\n"@;
            let end = "        ),\n        hashed: Nibbles {\n            count: "@ + decimal(
                item.hashed.0 as nat,
            ) + ",\n            packed: \""@ + nibbles_hex(item.hashed)
                + "\",\n        },\n    },\n"@;
            item.listed() == match item.k.0 {
                Some(origin) => start + ("            Some(\n                0x"@ + origin.hex()
                    + ",\n            ),\n"@) + end,
                None => start + "            None,\n"@ + end,
            }
        }),
{
    let start = "    HashedKeyAndUnhashedLookup {\n        k: HashLookupAttempt(\n"@;
    let end = "        ),\n        hashed: Nibbles {\n            count: "@ + decimal(
        item.hashed.0 as nat,
    ) + ",\n            packed: \""@ + nibbles_hex(item.hashed) + "\",\n        },\n    },\n"@;
    match item.k.0 {
        Some(origin) => {
            assert(item.listed() =~= start + ("            Some(\n                0x"@ + origin.hex()
                + ",\n            ),\n"@) + end);
        },
        None => {
            assert(item.listed() =~= start + "            None,\n"@ + end);
        },
    }
}

/// Findings are told after a heading, each in a line of its own.
pub proof fn law_findings_in_words(
    found: TraceVerificationErrors,
    errs: Seq<TraceVerificationErrorView>,
    err: TraceVerificationErrorView,
)
    requires
        errs.len() == found.errs@.len(),
        forall|i: int| 0 <= i < errs.len() ==> #[trigger] errs[i] == found.errs@[i]@,
    ensures
        found.shown() == lines_shown(errs),
        lines_shown(Seq::empty()) == "The following verification errors occurred:\n"@,
        lines_shown(errs.push(err)) == lines_shown(errs) + err.shown() + "\n"@,
{
    assert(views(found.errs@) =~= errs);
    assert(errs.push(err).drop_last() =~= errs);
}

/// A finding can be told exactly where no hashed key that it tells has more than sixty-four nibbles.
pub proof fn law_when_findings_can_be_told(
    attempt: HashLookupAttempt<Address>,
    key: Nibbles,
    hash: TrieRootHash,
    state: Seq<HashedKeyAndUnhashedLookup<Address>>,
    storage: Seq<HashedKeyAndUnhashedLookup<StorageAddr>>,
    err: TraceVerificationErrorView,
    errs: Seq<TraceVerificationErrorView>,
)
    ensures
        TraceVerificationErrorView::MissingStorageTrieForAccount(attempt, key, hash).can_be_shown()
            <==> key.0 <= 64,
        TraceVerificationErrorView::MissingContractCodeForAccount(
            attempt,
            key,
            hash,
        ).can_be_shown() <==> key.0 <= 64,
        TraceVerificationErrorView::UnusedStateNodesInPreImage(state).can_be_shown() <==> forall|
            i: int,
        | 0 <= i < state.len() ==> (#[trigger] state[i]).hashed.0 <= 64,
        TraceVerificationErrorView::UnusedStorageNodesInPreImage(storage).can_be_shown()
            <==> forall|i: int| 0 <= i < storage.len() ==> (#[trigger] storage[i]).hashed.0 <= 64,
        err is DecoderTrieRootMismatch || err is AccountStateMismatch ==> err.can_be_shown(),
        all_can_be_shown(errs) <==> forall|i: int|
            0 <= i < errs.len() ==> (#[trigger] errs[i]).can_be_shown(),
{
}

} // verus!
