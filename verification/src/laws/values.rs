//! Bytes, encodings, tries, order and numbers.

use crate::codec::{
    account_of_fields, hashed_address, hashed_slot, keccak256, rlp_account, rlp_hash_at,
    rlp_integer_at,
};
use crate::order::{
    in_order, lemma_addresses_are_ordered, lemma_in_order, lemma_keys_are_ordered,
    lemma_words_are_ordered,
};
use crate::text::{
    decimal, digit, hex_digits, nibbles_are_held, nibbles_hex, numeral, word_numeral, HexText,
};
use crate::trie::{
    accounts_of, entry_view, holds_accounts, is_hidden, keys_fit, leads_to_hash, leaf_view, leaves,
    leaves_of, listed, low_nibbles, paths_fit, spelled, trie_view, TrieView,
};
use crate::types::{
    address_bytes, be_bytes, fills_hash, hash_bytes, AccountRlp, AccountRlpWrapper, Address,
    Nibbles, H256, U256,
};
use eth_trie_utils::partial_trie::PartialTrie;
use vstd::arithmetic::div_mod::lemma_div_denominator;
use vstd::arithmetic::power::{lemma_pow_positive, pow};
use vstd::prelude::*;
use vstd::std_specs::cmp::{OrdSpec, PartialEqSpec};

verus! {

proof fn lemma_shift(x: nat, base: int, e: nat)
    requires
        base > 0,
    ensures
        (x as int / base) / pow(base, e) == x as int / pow(base, e + 1),
{
    reveal(pow);
    lemma_pow_positive(base, e);
    lemma_div_denominator(x as int, base, pow(base, e));
}

/// The `i`-th of `n` bytes is the digit with that weight in the number system with base 256.
pub proof fn law_bytes_are_positional(x: nat, n: nat)
    ensures
        be_bytes(x, n).len() == n,
        forall|i: int|
            0 <= i < n ==> #[trigger] be_bytes(x, n)[i] == (x as int / pow(256, (n - 1 - i) as nat))
                % 256,
    decreases n,
{
    reveal(pow);
    if n > 0 {
        law_bytes_are_positional(x / 256, (n - 1) as nat);
        assert forall|i: int| 0 <= i < n implies #[trigger] be_bytes(x, n)[i] == (x as int / pow(
            256,
            (n - 1 - i) as nat,
        )) % 256 by {
            if i < n - 1 {
                lemma_shift(x, 256, (n - 2 - i) as nat);
                assert(be_bytes(x, n)[i] == be_bytes(x / 256, (n - 1) as nat)[i]);
            }
        }
    }
}

/// The key of an account is the digest of its address: the four bytes of the high part, then the
/// sixteen bytes of the low part, each most significant first.
pub proof fn law_accounts_are_keyed_by_digest(addr: Address, bytes: Seq<u8>)
    requires
        bytes.len() == 20,
        forall|i: int|
            0 <= i < 4 ==> #[trigger] bytes[i] == (addr.0 as int / pow(256, (3 - i) as nat)) % 256,
        forall|i: int|
            4 <= i < 20 ==> #[trigger] bytes[i] == (addr.1 as int / pow(256, (19 - i) as nat))
                % 256,
    ensures
        address_bytes(addr) == bytes,
        hashed_address(addr) == keccak256(bytes),
{
    law_bytes_are_positional(addr.0 as nat, 4);
    law_bytes_are_positional(addr.1 as nat, 16);
    assert(address_bytes(addr) =~= bytes);
}

/// The key of a slot is the digest of its thirty-two bytes, most significant first.
pub proof fn law_slots_are_keyed_by_digest(slot: H256, bytes: Seq<u8>)
    requires
        bytes.len() == 32,
        forall|i: int|
            0 <= i < 16 ==> #[trigger] bytes[i] == (slot.0 as int / pow(256, (15 - i) as nat))
                % 256,
        forall|i: int|
            16 <= i < 32 ==> #[trigger] bytes[i] == (slot.1 as int / pow(256, (31 - i) as nat))
                % 256,
    ensures
        hash_bytes(slot) == bytes,
        hashed_slot(slot) == keccak256(bytes),
{
    law_bytes_are_positional(slot.0 as nat, 16);
    law_bytes_are_positional(slot.1 as nat, 16);
    assert(hash_bytes(slot) =~= bytes);
}

/// A key makes up a hash exactly where its nibbles take thirty-two bytes.
pub proof fn law_hashes_take_thirty_two_bytes(key: Nibbles)
    ensures
        fills_hash(key) <==> (key.0 + 1) / 2 == 32,
{
}

/// Wrapped accounts are equal exactly where they agree in each of the four fields.
pub proof fn law_wrapped_accounts_compare_by_field(a: AccountRlpWrapper, b: AccountRlpWrapper)
    ensures
        a.eq_spec(&b) <==> {
            &&& a.0.nonce == b.0.nonce
            &&& a.0.balance == b.0.balance
            &&& a.0.storage_root == b.0.storage_root
            &&& a.0.code_hash == b.0.code_hash
        },
{
}

/// An account is read from a list whose items are, in this order, its nonce, its balance, its storage
/// root and its code hash; from nothing else.
pub proof fn law_account_is_read_item_by_item(bytes: Seq<u8>, account: AccountRlp)
    ensures
        rlp_account(bytes) == Some(account) <==> {
            &&& rlp_integer_at(bytes, 0) == Some(account.nonce)
            &&& rlp_integer_at(bytes, 1) == Some(account.balance)
            &&& rlp_hash_at(bytes, 2) == Some(account.storage_root)
            &&& rlp_hash_at(bytes, 3) == Some(account.code_hash)
        },
        rlp_account(bytes) is None <==> {
            ||| rlp_integer_at(bytes, 0) is None
            ||| rlp_integer_at(bytes, 1) is None
            ||| rlp_hash_at(bytes, 2) is None
            ||| rlp_hash_at(bytes, 3) is None
        },
{
}

/// An account is made of four fields, each in its place, exactly where all of them are there.
pub proof fn law_account_is_made_of_its_fields(
    nonce: Option<U256>,
    balance: Option<U256>,
    storage_root: Option<H256>,
    code_hash: Option<H256>,
    account: AccountRlp,
)
    ensures
        account_of_fields(nonce, balance, storage_root, code_hash) == Some(account) <==> {
            &&& nonce == Some(account.nonce)
            &&& balance == Some(account.balance)
            &&& storage_root == Some(account.storage_root)
            &&& code_hash == Some(account.code_hash)
        },
        nonce is Some && balance is Some && storage_root is Some && code_hash is Some ==>
            account_of_fields(nonce, balance, storage_root, code_hash) is Some,
{
}

/// Entries and leaves are told with their keys and the bytes of their values.
pub proof fn law_entries_keep_their_bytes(
    entry: (Nibbles, Option<Vec<u8>>),
    leaf: (Nibbles, Vec<u8>),
)
    ensures
        entry_view(entry).0 == entry.0,
        entry.1 is None <==> entry_view(entry).1 is None,
        entry.1 matches Some(value) ==> entry_view(entry).1 == Some(value@),
        leaf_view(leaf).0 == leaf.0,
        leaf_view(leaf).1 == leaf.1@,
{
}

/// Of listed entries, those with a value are kept, in their order.
pub proof fn law_leaves_are_the_entries_with_values(entries: Seq<(Nibbles, Option<Seq<u8>>)>)
    ensures
        leaves(entries) == entries.filter_map(
            |entry: (Nibbles, Option<Seq<u8>>)|
                match entry.1 {
                    Some(value) => Some((entry.0, value)),
                    None => None,
                },
        ),
    decreases entries.len(),
{
    if entries.len() > 0 {
        law_leaves_are_the_entries_with_values(entries.drop_last());
    }
}

/// The leaves of a trie are the entries with a value among those that the trie lists.
pub proof fn law_leaves_of_a_trie_are_listed(trie: PartialTrie)
    ensures
        leaves_of(trie) == listed(trie_view(trie)).filter_map(
            |entry: (Nibbles, Option<Seq<u8>>)|
                match entry.1 {
                    Some(value) => Some((entry.0, value)),
                    None => None,
                },
        ),
{
    law_leaves_are_the_entries_with_values(listed(trie_view(trie)));
}

/// A trie holds accounts exactly where its keys fit and the four items of an account can be read from
/// each leaf; the accounts in it are what is read there, leaf by leaf, under the keys of the leaves.
pub proof fn law_accounts_are_read_from_the_leaves(trie: PartialTrie)
    ensures
        holds_accounts(trie) <==> keys_fit(trie) && forall|i: int|
            0 <= i < leaves_of(trie).len() ==> {
                let bytes = (#[trigger] leaves_of(trie)[i]).1;
                &&& rlp_integer_at(bytes, 0) is Some
                &&& rlp_integer_at(bytes, 1) is Some
                &&& rlp_hash_at(bytes, 2) is Some
                &&& rlp_hash_at(bytes, 3) is Some
            },
        accounts_of(trie).len() == leaves_of(trie).len(),
        forall|i: int|
            0 <= i < accounts_of(trie).len() && holds_accounts(trie) ==> {
                let (key, account) = #[trigger] accounts_of(trie)[i];
                let bytes = leaves_of(trie)[i].1;
                &&& key == leaves_of(trie)[i].0
                &&& rlp_integer_at(bytes, 0) == Some(account.nonce)
                &&& rlp_integer_at(bytes, 1) == Some(account.balance)
                &&& rlp_hash_at(bytes, 2) == Some(account.storage_root)
                &&& rlp_hash_at(bytes, 3) == Some(account.code_hash)
            },
{
    assert forall|i: int| 0 <= i < accounts_of(trie).len() && holds_accounts(trie) implies ({
        let (key, account) = #[trigger] accounts_of(trie)[i];
        let bytes = leaves_of(trie)[i].1;
        &&& key == leaves_of(trie)[i].0
        &&& rlp_integer_at(bytes, 0) == Some(account.nonce)
        &&& rlp_integer_at(bytes, 1) == Some(account.balance)
        &&& rlp_hash_at(bytes, 2) == Some(account.storage_root)
        &&& rlp_hash_at(bytes, 3) == Some(account.code_hash)
    }) by {
        assert(rlp_account(leaves_of(trie)[i].1) is Some);
    }
}

/// Whether some way down the trie, to its end or to an inner node, spells this many nibbles.
pub open spec fn spells(view: TrieView, len: int) -> bool
    decreases view,
{
    match view {
        TrieView::Branch { children, value: _ } => len == 1 || exists|i: int|
            0 <= i < children.len() && spells(#[trigger] children[i], len - 1),
        TrieView::Extension { nibbles, child } => len == nibbles.0 || spells(
            *child,
            len - nibbles.0,
        ),
        TrieView::Leaf { nibbles, value: _ } => len == nibbles.0,
        _ => false,
    }
}

proof fn lemma_spelled_within(view: TrieView, room: nat, len: int)
    requires
        paths_fit(view, room),
        spells(view, len),
    ensures
        len <= room,
    decreases view,
{
    match view {
        TrieView::Branch { children, value: _ } => {
            if len != 1 {
                let i = choose|i: int|
                    0 <= i < children.len() && spells(#[trigger] children[i], len - 1);
                lemma_spelled_within(children[i], (room - 1) as nat, len - 1);
            }
        },
        TrieView::Extension { nibbles, child } => {
            if len != nibbles.0 {
                lemma_spelled_within(*child, (room - nibbles.0) as nat, len - nibbles.0);
            }
        },
        _ => {},
    }
}

proof fn lemma_too_long(view: TrieView, room: nat) -> (len: int)
    requires
        !paths_fit(view, room),
    ensures
        spells(view, len),
        len > room,
    decreases view,
{
    match view {
        TrieView::Branch { children, value: _ } => {
            if room == 0 {
                1
            } else {
                let i = choose|i: int|
                    0 <= i < children.len() && !paths_fit(
                        #[trigger] children[i],
                        (room - 1) as nat,
                    );
                let rest = lemma_too_long(children[i], (room - 1) as nat);
                assert(spells(children[i], rest + 1 - 1));
                rest + 1
            }
        },
        TrieView::Extension { nibbles, child } => {
            if nibbles.0 > room {
                nibbles.0 as int
            } else {
                let rest = lemma_too_long(*child, (room - nibbles.0) as nat);
                assert(spells(*child, rest + nibbles.0 - nibbles.0));
                rest + nibbles.0
            }
        },
        TrieView::Leaf { nibbles, value: _ } => nibbles.0 as int,
        _ => 0,
    }
}

/// The paths of a trie fit in some room exactly where no way down spells more nibbles than that.
pub proof fn law_paths_fit_by_length(view: TrieView, room: nat)
    ensures
        paths_fit(view, room) <==> forall|len: int| #[trigger] spells(view, len) ==> len <= room,
{
    if paths_fit(view, room) {
        assert forall|len: int| #[trigger] spells(view, len) implies len <= room by {
            lemma_spelled_within(view, room, len);
        }
    } else {
        let len = lemma_too_long(view, room);
        assert(spells(view, len));
    }
}

/// The keys of a trie fit exactly where no way down spells more than sixty-four nibbles.
pub proof fn law_keys_fit_by_length(trie: PartialTrie)
    ensures
        keys_fit(trie) <==> forall|len: int| #[trigger]
            spells(trie_view(trie), len) ==> len <= 64,
{
    law_paths_fit_by_length(trie_view(trie), 64);
}

/// The `i`-th of `n` nibbles is the digit with that weight in the number system with base 16.
pub proof fn law_nibbles_are_positional(x: nat, n: nat)
    ensures
        low_nibbles(x, n).len() == n,
        forall|i: int|
            0 <= i < n ==> #[trigger] low_nibbles(x, n)[i] == (x as int / pow(
                16,
                (n - 1 - i) as nat,
            )) % 16,
    decreases n,
{
    reveal(pow);
    if n > 0 {
        law_nibbles_are_positional(x / 16, (n - 1) as nat);
        assert forall|i: int| 0 <= i < n implies #[trigger] low_nibbles(x, n)[i] == (x as int / pow(
            16,
            (n - 1 - i) as nat,
        )) % 16 by {
            if i < n - 1 {
                lemma_shift(x, 16, (n - 2 - i) as nat);
                assert(low_nibbles(x, n)[i] == low_nibbles(x / 16, (n - 1) as nat)[i]);
            }
        }
    }
}

/// A key spells as many nibbles as it counts: those of the low half last, before them those of the
/// high half.
pub proof fn law_keys_spell_their_nibbles(key: Nibbles)
    requires
        key.0 <= 64,
    ensures
        spelled(key).len() == key.0,
        forall|i: int|
            0 <= i < key.0 ==> #[trigger] spelled(key)[key.0 - 1 - i] == if i < 32 {
                (key.1.1 as int / pow(16, i as nat)) % 16
            } else {
                (key.1.0 as int / pow(16, (i - 32) as nat)) % 16
            },
{
    law_nibbles_are_positional(key.1.1 as nat, key.0 as nat);
    law_nibbles_are_positional(key.1.1 as nat, 32);
    if key.0 > 32 {
        law_nibbles_are_positional(key.1.0 as nat, (key.0 - 32) as nat);
    }
}

/// Whether the trie has this node at the end of these nibbles.
pub open spec fn has_node_at(view: TrieView, path: Seq<u8>, node: TrieView) -> bool
    decreases view,
{
    ||| path.len() == 0 && node == view
    ||| match view {
        TrieView::Branch { children, value: _ } => exists|i: int|
            0 <= i < children.len() && path.len() > 0 && path[0] == i && has_node_at(
                #[trigger] children[i],
                path.skip(1),
                node,
            ),
        TrieView::Extension { nibbles, child } => {
            &&& spelled(nibbles).is_prefix_of(path)
            &&& has_node_at(*child, path.skip(spelled(nibbles).len() as int), node)
        },
        _ => false,
    }
}

/// A path leads to a hash exactly where a hash stands at the end of some beginning of it.
pub proof fn law_hidden_behind_a_hash(view: TrieView, path: Seq<u8>)
    requires
        path.len() <= 64,
        paths_fit(view, 64),
    ensures
        leads_to_hash(view, path) <==> exists|n: int, hash: H256|
            0 <= n <= path.len() && #[trigger] has_node_at(
                view,
                path.take(n),
                TrieView::Hash(hash),
            ),
{
    lemma_hidden_behind_a_hash(view, path, 64);
}

proof fn lemma_hidden_behind_a_hash(view: TrieView, path: Seq<u8>, room: nat)
    requires
        path.len() <= 64,
        room <= 64,
        paths_fit(view, room),
    ensures
        leads_to_hash(view, path) <==> exists|n: int, hash: H256|
            0 <= n <= path.len() && #[trigger] has_node_at(
                view,
                path.take(n),
                TrieView::Hash(hash),
            ),
    decreases view,
{
    match view {
        TrieView::Empty => {},
        TrieView::Hash(hash) => {
            assert(has_node_at(view, path.take(0), TrieView::Hash(hash)));
        },
        TrieView::Branch { children, value: _ } => {
            if path.len() > 0 && path[0] < children.len() {
                let c = path[0] as int;
                lemma_hidden_behind_a_hash(children[c], path.skip(1), (room - 1) as nat);
                if leads_to_hash(view, path) {
                    let (n, hash) = choose|n: int, hash: H256|
                        0 <= n <= path.skip(1).len() && #[trigger] has_node_at(
                            children[c],
                            path.skip(1).take(n),
                            TrieView::Hash(hash),
                        );
                    assert(path.take(n + 1).skip(1) =~= path.skip(1).take(n));
                    assert(has_node_at(view, path.take(n + 1), TrieView::Hash(hash)));
                }
            }
            assert forall|n: int, hash: H256|
                0 <= n <= path.len() && #[trigger] has_node_at(
                    view,
                    path.take(n),
                    TrieView::Hash(hash),
                ) implies leads_to_hash(view, path) by {
                let i = choose|i: int|
                    0 <= i < children.len() && path.take(n).len() > 0 && path.take(n)[0] == i
                        && has_node_at(
                        #[trigger] children[i],
                        path.take(n).skip(1),
                        TrieView::Hash(hash),
                    );
                assert(path.take(n).skip(1) =~= path.skip(1).take(n - 1));
                assert(has_node_at(children[i], path.skip(1).take(n - 1), TrieView::Hash(hash)));
            }
        },
        TrieView::Extension { nibbles, child } => {
            law_keys_spell_their_nibbles(nibbles);
            let len = nibbles.0 as int;
            if len <= path.len() && path.take(len) == spelled(nibbles) {
                lemma_hidden_behind_a_hash(*child, path.skip(len), (room - len) as nat);
                if leads_to_hash(view, path) {
                    let (n, hash) = choose|n: int, hash: H256|
                        0 <= n <= path.skip(len).len() && #[trigger] has_node_at(
                            *child,
                            path.skip(len).take(n),
                            TrieView::Hash(hash),
                        );
                    assert(path.take(n + len).skip(len) =~= path.skip(len).take(n));
                    assert(path.take(n + len).subrange(0, len) =~= spelled(nibbles));
                    assert(has_node_at(view, path.take(n + len), TrieView::Hash(hash)));
                }
            }
            assert forall|n: int, hash: H256|
                0 <= n <= path.len() && #[trigger] has_node_at(
                    view,
                    path.take(n),
                    TrieView::Hash(hash),
                ) implies leads_to_hash(view, path) by {
                assert(spelled(nibbles) =~= path.take(n).subrange(0, len));
                assert(path.take(len) =~= spelled(nibbles));
                assert(path.take(n).skip(len) =~= path.skip(len).take(n - len));
                assert(has_node_at(*child, path.skip(len).take(n - len), TrieView::Hash(hash)));
            }
        },
        TrieView::Leaf { nibbles: _, value: _ } => {},
    }
}

/// What lies under a hash as the key is hidden exactly where the sixty-four nibbles of the hash lead
/// to a part that is not held.
pub proof fn law_hidden_keys(trie: PartialTrie, key: H256)
    requires
        keys_fit(trie),
    ensures
        is_hidden(trie_view(trie), key) <==> exists|n: int, hash: H256|
            0 <= n <= 64 && #[trigger] has_node_at(
                trie_view(trie),
                spelled((64, key)).take(n),
                TrieView::Hash(hash),
            ),
{
    law_keys_spell_their_nibbles((64, key));
    law_hidden_behind_a_hash(trie_view(trie), spelled((64, key)));
}

/// Words are listed each once, by ascending high half, and where that is the same by ascending low
/// half.
pub proof fn law_words_are_listed_ascending(words: Set<(u128, u128)>)
    requires
        words.finite(),
    ensures
        forall|word: (u128, u128)| #[trigger] in_order(words).contains(word) <==> words.contains(word),
        forall|i: int, j: int|
            0 <= i < j < in_order(words).len() ==> {
                let (a, b) = (#[trigger] in_order(words)[i], #[trigger] in_order(words)[j]);
                a.0 < b.0 || (a.0 == b.0 && a.1 < b.1)
            },
{
    lemma_words_are_ordered();
    lemma_in_order(words);
    let listed = in_order(words);
    assert forall|word: (u128, u128)| #[trigger] listed.contains(word) <==> words.contains(word) by {
        assert(listed.to_set().contains(word) == words.contains(word));
    }
    assert forall|i: int, j: int| 0 <= i < j < listed.len() implies ({
        let (a, b) = (#[trigger] listed[i], #[trigger] listed[j]);
        a.0 < b.0 || (a.0 == b.0 && a.1 < b.1)
    }) by {
        assert(listed[i].cmp_spec(&listed[j]) is Less);
    }
}

/// Addresses are listed each once, in ascending order.
pub proof fn law_addresses_are_listed_ascending(addrs: Set<(u32, u128)>)
    requires
        addrs.finite(),
    ensures
        forall|addr: (u32, u128)| #[trigger] in_order(addrs).contains(addr) <==> addrs.contains(addr),
        forall|i: int, j: int|
            0 <= i < j < in_order(addrs).len() ==> {
                let (a, b) = (#[trigger] in_order(addrs)[i], #[trigger] in_order(addrs)[j]);
                a.0 < b.0 || (a.0 == b.0 && a.1 < b.1)
            },
{
    lemma_addresses_are_ordered();
    lemma_in_order(addrs);
    let listed = in_order(addrs);
    assert forall|addr: (u32, u128)| #[trigger] listed.contains(addr) <==> addrs.contains(addr) by {
        assert(listed.to_set().contains(addr) == addrs.contains(addr));
    }
    assert forall|i: int, j: int| 0 <= i < j < listed.len() implies ({
        let (a, b) = (#[trigger] listed[i], #[trigger] listed[j]);
        a.0 < b.0 || (a.0 == b.0 && a.1 < b.1)
    }) by {
        assert(listed[i].cmp_spec(&listed[j]) is Less);
    }
}

/// Trie keys are listed each once, shorter ones first, and those of the same length in ascending
/// order.
pub proof fn law_keys_are_listed_ascending(keys: Set<Nibbles>)
    requires
        keys.finite(),
    ensures
        forall|key: Nibbles| #[trigger] in_order(keys).contains(key) <==> keys.contains(key),
        forall|i: int, j: int|
            0 <= i < j < in_order(keys).len() ==> {
                let (a, b) = (#[trigger] in_order(keys)[i], #[trigger] in_order(keys)[j]);
                a.0 < b.0 || (a.0 == b.0 && (a.1.0 < b.1.0 || (a.1.0 == b.1.0 && a.1.1 < b.1.1)))
            },
{
    lemma_keys_are_ordered();
    lemma_in_order(keys);
    let listed = in_order(keys);
    assert forall|key: Nibbles| #[trigger] listed.contains(key) <==> keys.contains(key) by {
        assert(listed.to_set().contains(key) == keys.contains(key));
    }
    assert forall|i: int, j: int| 0 <= i < j < listed.len() implies ({
        let (a, b) = (#[trigger] listed[i], #[trigger] listed[j]);
        a.0 < b.0 || (a.0 == b.0 && (a.1.0 < b.1.0 || (a.1.0 == b.1.0 && a.1.1 < b.1.1)))
    }) by {
        assert(listed[i].cmp_spec(&listed[j]) is Less);
    }
}

/// The number that a digit stands for.
pub open spec fn digit_value(c: char) -> int {
    if c <= '9' {
        c as int - '0' as int
    } else {
        c as int - 'a' as int + 10
    }
}

/// The number that these digits stand for.
pub open spec fn digits_value(digits: Seq<char>, base: int) -> int
    decreases digits.len(),
{
    if digits.len() == 0 {
        0
    } else {
        digits_value(digits.drop_last(), base) * base + digit_value(digits.last())
    }
}

/// A digit stands for its number, and is one of 0 to 9 or a to f.
pub proof fn law_digits_stand_for_their_numbers(n: nat)
    requires
        n < 16,
    ensures
        digit_value(digit(n)) == n,
        '0' <= digit(n) <= '9' || 'a' <= digit(n) <= 'f',
{
    reveal_strlit("0123456789abcdef");
}

/// A numeral stands for its number and has no leading zeros.
pub proof fn law_numerals_stand_for_their_numbers(x: nat, base: nat)
    requires
        1 < base <= 16,
    ensures
        digits_value(numeral(x, base), base as int) == x,
        numeral(x, base).len() > 0,
        x > 0 ==> digit_value(numeral(x, base)[0]) > 0,
        numeral(x, base).len() > 1 ==> x > 0,
        forall|i: int|
            0 <= i < numeral(x, base).len() ==> 0 <= digit_value(#[trigger] numeral(x, base)[i])
                < base,
    decreases x,
{
    if x < base {
        law_digits_stand_for_their_numbers(x);
        assert(numeral(x, base).drop_last() =~= Seq::empty());
        assert(digits_value(numeral(x, base).drop_last(), base as int) == 0);
    } else {
        let whole = x / base;
        assert(0 < whole < x && x % base < base && whole * base + x % base == x) by (nonlinear_arith)
            requires
                1 < base <= x,
                whole == x / base,
        ;
        law_numerals_stand_for_their_numbers(whole, base);
        law_digits_stand_for_their_numbers(x % base);
        let digits = numeral(x, base);
        assert(digits.drop_last() =~= numeral(whole, base));
        if whole < base {
            law_digits_stand_for_their_numbers(whole);
        }
        assert forall|i: int| 0 <= i < digits.len() implies 0 <= digit_value(#[trigger] digits[i])
            < base by {
            if i < digits.len() - 1 {
                assert(digits[i] == numeral(whole, base)[i]);
            }
        }
        assert(digits[0] == numeral(whole, base)[0]);
    }
}

/// The `i`-th of `n` hexadecimal digits stands for the number with that weight.
pub proof fn law_hex_digits_are_positional(x: nat, n: nat)
    ensures
        hex_digits(x, n).len() == n,
        forall|i: int|
            0 <= i < n ==> digit_value(#[trigger] hex_digits(x, n)[i]) == (x as int / pow(
                16,
                (n - 1 - i) as nat,
            )) % 16,
    decreases n,
{
    reveal(pow);
    if n > 0 {
        law_hex_digits_are_positional(x / 16, (n - 1) as nat);
        law_digits_stand_for_their_numbers(x % 16);
        assert forall|i: int| 0 <= i < n implies digit_value(#[trigger] hex_digits(x, n)[i]) == (
        x as int / pow(16, (n - 1 - i) as nat)) % 16 by {
            if i < n - 1 {
                lemma_shift(x, 16, (n - 2 - i) as nat);
                assert(hex_digits(x, n)[i] == hex_digits(x / 16, (n - 1) as nat)[i]);
            }
        }
    }
}

/// Hashes are written with sixty-four digits and addresses with forty, each half by its place.
pub proof fn law_hashes_and_addresses_in_hex(word: (u128, u128), addr: (u32, u128))
    ensures
        word.hex().len() == 64,
        forall|i: int|
            0 <= i < 32 ==> digit_value(#[trigger] word.hex()[i]) == (word.0 as int / pow(
                16,
                (31 - i) as nat,
            )) % 16,
        forall|i: int|
            32 <= i < 64 ==> digit_value(#[trigger] word.hex()[i]) == (word.1 as int / pow(
                16,
                (63 - i) as nat,
            )) % 16,
        addr.hex().len() == 40,
        forall|i: int|
            0 <= i < 8 ==> digit_value(#[trigger] addr.hex()[i]) == (addr.0 as int / pow(
                16,
                (7 - i) as nat,
            )) % 16,
        forall|i: int|
            8 <= i < 40 ==> digit_value(#[trigger] addr.hex()[i]) == (addr.1 as int / pow(
                16,
                (39 - i) as nat,
            )) % 16,
{
    law_hex_digits_are_positional(word.0 as nat, 32);
    law_hex_digits_are_positional(word.1 as nat, 32);
    law_hex_digits_are_positional(addr.0 as nat, 8);
    law_hex_digits_are_positional(addr.1 as nat, 32);
}

/// A trie key is written as "0x" and one digit for each of its nibbles.
pub proof fn law_keys_in_hex(key: Nibbles)
    ensures
        nibbles_are_held(key) <==> key.0 <= 64,
        key.0 <= 64 ==> {
            &&& nibbles_hex(key).len() == key.0 + 2
            &&& nibbles_hex(key)[0] == '0'
            &&& nibbles_hex(key)[1] == 'x'
            &&& forall|i: int|
                0 <= i < key.0 ==> digit_value(#[trigger] nibbles_hex(key)[key.0 + 1 - i])
                    == if i < 32 {
                    (key.1.1 as int / pow(16, i as nat)) % 16
                } else {
                    (key.1.0 as int / pow(16, (i - 32) as nat)) % 16
                }
        },
{
    reveal_strlit("0x");
    law_hex_digits_are_positional(key.1.1 as nat, key.0 as nat);
    law_hex_digits_are_positional(key.1.1 as nat, 32);
    if key.0 > 32 {
        law_hex_digits_are_positional(key.1.0 as nat, (key.0 - 32) as nat);
    }
}

/// A number of 256 bits is written as the numeral of its low half where the high half is zero, and
/// else as the numeral of the high half and all thirty-two digits of the low half.
pub proof fn law_words_in_hex(word: U256)
    ensures
        word.0 == 0 ==> {
            &&& digits_value(word_numeral(word), 16) == word.1
            &&& word_numeral(word).len() > 1 ==> digit_value(word_numeral(word)[0]) > 0
        },
        word.0 > 0 ==> {
            let high = word_numeral(word).len() - 32;
            &&& high > 0
            &&& digits_value(word_numeral(word).take(high), 16) == word.0
            &&& digit_value(word_numeral(word)[0]) > 0
            &&& forall|i: int|
                0 <= i < 32 ==> digit_value(#[trigger] word_numeral(word)[high + 31 - i]) == (
                word.1 as int / pow(16, i as nat)) % 16
        },
{
    law_numerals_stand_for_their_numbers(word.0 as nat, 16);
    law_numerals_stand_for_their_numbers(word.1 as nat, 16);
    law_hex_digits_are_positional(word.1 as nat, 32);
    if word.0 > 0 {
        let high = word_numeral(word).len() - 32;
        assert(word_numeral(word).take(high) =~= numeral(word.0 as nat, 16));
    }
}

/// Decimals stand for their numbers, in the number system with base ten.
pub proof fn law_decimals_stand_for_their_numbers(x: nat)
    ensures
        digits_value(decimal(x), 10) == x,
        decimal(x).len() > 1 ==> digit_value(decimal(x)[0]) > 0,
{
    law_numerals_stand_for_their_numbers(x, 10);
}

} // verus!
