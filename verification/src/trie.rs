//! Partial tries: their shape, the entries that they list, the values they hold and their roots.

use crate::codec::{decode_account, rlp_account};
use crate::types::{AccountRlp, Nibbles, TrieRootHash, H256};
use eth_trie_utils::partial_trie::Nibbles as EthNibbles;
use eth_trie_utils::partial_trie::PartialTrie;
use eth_trie_utils::trie_ops::ValOrHash;
use vstd::prelude::*;

verus! {

/// A partial trie of `eth_trie_utils`.
#[verifier::external_type_specification]
#[verifier::external_body]
pub struct ExPartialTrie(PartialTrie);

/// What a partial trie is made of.
pub enum TrieView {
    Empty,
    Hash(H256),
    Branch { children: Seq<TrieView>, value: Seq<u8> },
    Extension { nibbles: Nibbles, child: Box<TrieView> },
    Leaf { nibbles: Nibbles, value: Seq<u8> },
}

/// What the trie `trie` holds: its nodes.
pub uninterp spec fn trie_view(trie: PartialTrie) -> TrieView;

/// The kind of a trie's root node, what is needed of the nibbles that it spells, and its children.
enum TrieNode<'a> {
    Empty,
    Hash,
    Branch { children: Vec<&'a PartialTrie> },
    Extension { nibbles: Nibbles, child: &'a PartialTrie },
    Leaf { count: usize },
}

impl<'a> TrieNode<'a> {
    /// Whether this is the root node of `view`.
    spec fn is_root_of(self, view: TrieView) -> bool {
        match (self, view) {
            (TrieNode::Empty, TrieView::Empty) => true,
            (TrieNode::Hash, TrieView::Hash(_)) => true,
            (
                TrieNode::Branch { children },
                TrieView::Branch { children: child_views, value: _ },
            ) => child_views == children@.map_values(|child: &PartialTrie| trie_view(*child)),
            (
                TrieNode::Extension { nibbles, child },
                TrieView::Extension { nibbles: viewed, child: child_view },
            ) => nibbles == viewed && *child_view == trie_view(*child),
            (TrieNode::Leaf { count }, TrieView::Leaf { nibbles, value: _ }) => nibbles.0 == count,
            _ => false,
        }
    }
}

/// Takes the root node of an `eth_trie_utils::partial_trie::PartialTrie` apart, variant by variant.
/// The claim is that kind, children, the nibbles of an extension and the nibble count of a leaf are
/// those of what the trie holds.
#[verifier::external_body]
fn root_node<'a>(trie: &'a PartialTrie) -> (node: TrieNode<'a>)
    ensures
        node.is_root_of(trie_view(*trie)),
{
    match trie {
        PartialTrie::Empty => TrieNode::Empty,
        PartialTrie::Hash(_) => TrieNode::Hash,
        PartialTrie::Branch { children, .. } => TrieNode::Branch {
            children: children.iter().map(|child| &***child).collect(),
        },
        PartialTrie::Extension { nibbles, child } => {
            let mut word = [0u8; 32];
            nibbles.packed.to_big_endian(&mut word);
            let high = u128::from_be_bytes(word[..16].try_into().unwrap());
            let low = u128::from_be_bytes(word[16..].try_into().unwrap());
            TrieNode::Extension { nibbles: (nibbles.count, (high, low)), child: &***child }
        },
        PartialTrie::Leaf { nibbles, .. } => TrieNode::Leaf { count: nibbles.count },
    }
}

/// Whether no path through the trie spells more than `room` nibbles, a branch counting for one.
pub open spec fn paths_fit(view: TrieView, room: nat) -> bool
    decreases view,
{
    match view {
        TrieView::Empty => true,
        TrieView::Hash(_) => true,
        TrieView::Branch { children, value: _ } => {
            &&& room > 0
            &&& forall|i: int|
                0 <= i < children.len() ==> paths_fit(#[trigger] children[i], (room - 1) as nat)
        },
        TrieView::Extension { nibbles, child } => {
            &&& nibbles.0 <= room
            &&& paths_fit(*child, (room - nibbles.0) as nat)
        },
        TrieView::Leaf { nibbles, value: _ } => nibbles.0 <= room,
    }
}

/// Whether the keys of the trie are at most as long as a hash, the longest key that it can list.
pub open spec fn keys_fit(trie: PartialTrie) -> bool {
    paths_fit(trie_view(trie), 64)
}

fn check_paths(trie: &PartialTrie, room: usize) -> (fit: bool)
    ensures
        fit == paths_fit(trie_view(*trie), room as nat),
    decreases trie_view(*trie),
{
    match root_node(trie) {
        TrieNode::Empty => true,
        TrieNode::Hash => true,
        TrieNode::Branch { children } => {
            if room == 0 {
                return false;
            }
            let ghost views = trie_view(*trie)->children;
            let mut i: usize = 0;
            while i < children.len()
                invariant
                    room > 0,
                    i <= children@.len(),
                    views == children@.map_values(|child: &PartialTrie| trie_view(*child)),
                    trie_view(*trie) is Branch,
                    trie_view(*trie)->children == views,
                    forall|j: int|
                        0 <= j < i ==> paths_fit(#[trigger] views[j], (room - 1) as nat),
                decreases children@.len() - i,
            {
                assert(decreases_to!(trie_view(*trie) => views[i as int]));
                if !check_paths(children[i], room - 1) {
                    return false;
                }
                i += 1;
            }
            true
        },
        TrieNode::Extension { nibbles, child } => {
            nibbles.0 <= room && check_paths(child, room - nibbles.0)
        },
        TrieNode::Leaf { count } => count <= room,
    }
}

/// Tests whether the keys of the trie are at most as long as a hash.
pub fn check_keys_fit(trie: &PartialTrie) -> (fit: bool)
    ensures
        fit == keys_fit(*trie),
{
    check_paths(trie, 64)
}

/// What `PartialTrie::items` lists for a trie that holds this, in its order: the value under each key,
/// and `None` where a key leads to the hash of a part that is not held.
pub uninterp spec fn listed(view: TrieView) -> Seq<(Nibbles, Option<Seq<u8>>)>;

/// An optional value by its bytes.
pub open spec fn value_view(value: Option<Vec<u8>>) -> Option<Seq<u8>> {
    match value {
        Some(bytes) => Some(bytes@),
        None => None,
    }
}

/// An entry with its value by its bytes.
pub open spec fn entry_view(entry: (Nibbles, Option<Vec<u8>>)) -> (Nibbles, Option<Seq<u8>>) {
    (entry.0, value_view(entry.1))
}

/// Calls `eth_trie_utils::partial_trie::PartialTrie::items`, which panics where a path spells more
/// nibbles than a hash has. The claim is that the entries and their order are a function of what the
/// trie holds; how they follow from its nodes is left unsaid.
#[verifier::external_body]
fn items(trie: &PartialTrie) -> (entries: Vec<(Nibbles, Option<Vec<u8>>)>)
    requires
        keys_fit(*trie),
    ensures
        entries@.map_values(|entry: (Nibbles, Option<Vec<u8>>)| entry_view(entry))
            == listed(trie_view(*trie)),
{
    let listed = trie.items().map(|(key, entry)| {
        let mut word = [0u8; 32];
        key.packed.to_big_endian(&mut word);
        let high = u128::from_be_bytes(word[..16].try_into().unwrap());
        let low = u128::from_be_bytes(word[16..].try_into().unwrap());
        match entry {
            ValOrHash::Val(value) => ((key.count, (high, low)), Some(value)),
            ValOrHash::Hash(_) => ((key.count, (high, low)), None),
        }
    });
    listed.collect()
}

/// What `PartialTrie::get` finds under a hash as the key, in a trie that holds this.
pub uninterp spec fn found(view: TrieView, key: H256) -> Option<Seq<u8>>;

/// Calls `eth_trie_utils::partial_trie::PartialTrie::get` with the nibbles of a hash. It panics
/// where an extension on the way spells more nibbles than the key has left. The claim is that the
/// value is a function of what the trie holds and of the key; how it follows from the nodes is left
/// unsaid.
#[verifier::external_body]
fn get(trie: &PartialTrie, key: &H256) -> (value: Option<Vec<u8>>)
    requires
        keys_fit(*trie),
    ensures
        value_view(value) == found(trie_view(*trie), *key),
{
    let bytes = [key.0.to_be_bytes(), key.1.to_be_bytes()].concat();
    let nibbles = EthNibbles::from_h256_be(ethereum_types::H256::from_slice(&bytes));
    trie.get(nibbles).map(|value| value.to_vec())
}

/// What `PartialTrie::calc_hash` returns for a trie that holds this.
pub uninterp spec fn root_of(view: TrieView) -> TrieRootHash;

/// Calls `eth_trie_utils::partial_trie::PartialTrie::calc_hash`, which panics where a node spells
/// more nibbles than a hash has. The claim is that the root is a function of what the trie holds; its
/// encoding is left unsaid.
#[verifier::external_body]
fn calc_hash(trie: &PartialTrie) -> (root: TrieRootHash)
    requires
        keys_fit(*trie),
    ensures
        root == root_of(trie_view(*trie)),
{
    let root = trie.calc_hash().0;
    let (high, low) = root.split_at(16);
    (
        u128::from_be_bytes(high.try_into().unwrap()),
        u128::from_be_bytes(low.try_into().unwrap()),
    )
}

/// The root of the trie.
pub fn trie_root(trie: &PartialTrie) -> (root: TrieRootHash)
    requires
        keys_fit(*trie),
    ensures
        root == root_of(trie_view(*trie)),
{
    calc_hash(trie)
}

/// The value under a hash as the key.
pub fn trie_get(trie: &PartialTrie, key: &H256) -> (value: Option<Vec<u8>>)
    requires
        keys_fit(*trie),
    ensures
        value_view(value) == found(trie_view(*trie), *key),
{
    get(trie, key)
}

/// The `n` low nibbles of `x`, most significant first.
pub open spec fn low_nibbles(x: nat, n: nat) -> Seq<u8>
    decreases n,
{
    if n == 0 {
        Seq::empty()
    } else {
        low_nibbles(x / 16, (n - 1) as nat).push((x % 16) as u8)
    }
}

/// The nibbles of a trie key.
pub open spec fn spelled(key: Nibbles) -> Seq<u8> {
    if key.0 <= 32 {
        low_nibbles(key.1.1 as nat, key.0 as nat)
    } else {
        low_nibbles(key.1.0 as nat, (key.0 - 32) as nat) + low_nibbles(key.1.1 as nat, 32)
    }
}

/// Whether the path along these nibbles ends at the hash of a part that is not held.
pub open spec fn leads_to_hash(view: TrieView, path: Seq<u8>) -> bool
    decreases view,
{
    match view {
        TrieView::Empty => false,
        TrieView::Hash(_) => true,
        TrieView::Branch { children, value: _ } => {
            &&& path.len() > 0
            &&& path[0] < children.len()
            &&& leads_to_hash(children[path[0] as int], path.skip(1))
        },
        TrieView::Extension { nibbles, child } => {
            &&& nibbles.0 <= path.len()
            &&& path.take(nibbles.0 as int) == spelled(nibbles)
            &&& leads_to_hash(*child, path.skip(nibbles.0 as int))
        },
        TrieView::Leaf { nibbles: _, value: _ } => false,
    }
}

/// Whether what the trie has under a hash as the key lies in a part that is not held.
pub open spec fn is_hidden(view: TrieView, key: H256) -> bool {
    leads_to_hash(view, spelled((64, key)))
}

fn push_low_nibbles(x: u128, n: usize, out: &mut Vec<u8>)
    ensures
        final(out)@ == old(out)@ + low_nibbles(x as nat, n as nat),
    decreases n,
{
    if n > 0 {
        push_low_nibbles(x / 16, n - 1, out);
        out.push((x % 16) as u8);
    }
}

fn spell(key: &Nibbles) -> (nibbles: Vec<u8>)
    ensures
        nibbles@ == spelled(*key),
{
    let mut nibbles: Vec<u8> = Vec::new();
    if key.0 <= 32 {
        push_low_nibbles(key.1.1, key.0, &mut nibbles);
    } else {
        push_low_nibbles(key.1.0, key.0 - 32, &mut nibbles);
        push_low_nibbles(key.1.1, 32, &mut nibbles);
    }
    nibbles
}

proof fn lemma_low_nibbles_len(x: nat, n: nat)
    ensures
        low_nibbles(x, n).len() == n,
    decreases n,
{
    if n > 0 {
        lemma_low_nibbles_len(x / 16, (n - 1) as nat);
    }
}

/// Tests whether `path` goes on with `nibbles` at this place.
fn continues_with(path: &Vec<u8>, at: usize, nibbles: &Vec<u8>) -> (continues: bool)
    requires
        at + nibbles@.len() <= path@.len(),
    ensures
        continues == (path@.skip(at as int).take(nibbles@.len() as int) == nibbles@),
{
    let len = path.len();
    for i in 0..nibbles.len()
        invariant
            len == path@.len(),
            at + nibbles@.len() <= len,
            forall|j: int| 0 <= j < i ==> path@[at + j] == #[trigger] nibbles@[j],
    {
        if path[at + i] != nibbles[i] {
            assert(path@.skip(at as int).take(nibbles@.len() as int)[i as int]
                != nibbles@[i as int]);
            return false;
        }
    }
    assert(path@.skip(at as int).take(nibbles@.len() as int) =~= nibbles@);
    true
}

fn check_leads_to_hash(trie: &PartialTrie, path: &Vec<u8>, at: usize) -> (leads: bool)
    requires
        at <= path@.len(),
    ensures
        leads == leads_to_hash(trie_view(*trie), path@.skip(at as int)),
    decreases trie_view(*trie),
{
    match root_node(trie) {
        TrieNode::Empty => false,
        TrieNode::Hash => true,
        TrieNode::Branch { children } => {
            let ghost views = trie_view(*trie)->children;
            if at == path.len() {
                return false;
            }
            let nibble = path[at] as usize;
            if nibble >= children.len() {
                return false;
            }
            assert(views[nibble as int] == trie_view(*children@[nibble as int]));
            assert(decreases_to!(trie_view(*trie) => views[nibble as int]));
            assert(path@.skip(at as int).skip(1) == path@.skip(at + 1));
            check_leads_to_hash(children[nibble], path, at + 1)
        },
        TrieNode::Extension { nibbles, child } => {
            if nibbles.0 > path.len() - at {
                return false;
            }
            let spelled_nibbles = spell(&nibbles);
            proof {
                lemma_low_nibbles_len(nibbles.1.1 as nat, nibbles.0 as nat);
                lemma_low_nibbles_len(nibbles.1.1 as nat, 32);
                lemma_low_nibbles_len(nibbles.1.0 as nat, (nibbles.0 - 32) as nat);
                assert(spelled_nibbles@.len() == nibbles.0);
                assert(path@.skip(at as int).skip(nibbles.0 as int) == path@.skip(at + nibbles.0));
            }
            continues_with(path, at, &spelled_nibbles) && check_leads_to_hash(
                child,
                path,
                at + nibbles.0,
            )
        },
        TrieNode::Leaf { count: _ } => false,
    }
}

/// Tests whether what the trie has under a hash as the key lies in a part that is not held.
pub fn check_is_hidden(trie: &PartialTrie, key: &H256) -> (hidden: bool)
    ensures
        hidden == is_hidden(trie_view(*trie), *key),
{
    let path = spell(&(64, *key));
    assert(path@.skip(0) == path@);
    check_leads_to_hash(trie, &path, 0)
}

/// The entries that hold a value, in the order in which they are listed.
pub open spec fn leaves(entries: Seq<(Nibbles, Option<Seq<u8>>)>) -> Seq<(Nibbles, Seq<u8>)>
    decreases entries.len(),
{
    if entries.len() == 0 {
        Seq::empty()
    } else {
        let before = leaves(entries.drop_last());
        match entries.last().1 {
            Some(value) => before.push((entries.last().0, value)),
            None => before,
        }
    }
}

/// The keys and values of the trie's leaves.
pub open spec fn leaves_of(trie: PartialTrie) -> Seq<(Nibbles, Seq<u8>)> {
    leaves(listed(trie_view(trie)))
}

/// A leaf with its value by its bytes.
pub open spec fn leaf_view(leaf: (Nibbles, Vec<u8>)) -> (Nibbles, Seq<u8>) {
    (leaf.0, leaf.1@)
}

/// Keeps the entries that hold a value.
pub fn keep_leaves(entries: Vec<(Nibbles, Option<Vec<u8>>)>) -> (kept: Vec<(Nibbles, Vec<u8>)>)
    ensures
        kept@.map_values(|leaf: (Nibbles, Vec<u8>)| leaf_view(leaf)) == leaves(
            entries@.map_values(|entry: (Nibbles, Option<Vec<u8>>)| entry_view(entry)),
        ),
{
    let ghost views = entries@.map_values(|entry: (Nibbles, Option<Vec<u8>>)| entry_view(entry));
    let mut kept: Vec<(Nibbles, Vec<u8>)> = Vec::new();
    for entry in it: entries
        invariant
            it.seq() == entries@,
            views == entries@.map_values(
                |entry: (Nibbles, Option<Vec<u8>>)| entry_view(entry),
            ),
            kept@.map_values(|leaf: (Nibbles, Vec<u8>)| leaf_view(leaf)) == leaves(
                views.take(it.index()),
            ),
    {
        proof {
            assert(views.take(it.index() + 1).drop_last() == views.take(it.index()));
        }
        match entry.1 {
            Some(value) => {
                kept.push((entry.0, value));
            },
            None => {},
        }
    }
    assert(views.take(views.len() as int) == views);
    kept
}

/// The keys and values of the trie's leaves.
pub fn get_leaf_vals_from_trie(trie: &PartialTrie) -> (leaves: Vec<(Nibbles, Vec<u8>)>)
    requires
        keys_fit(*trie),
    ensures
        leaves@.map_values(|leaf: (Nibbles, Vec<u8>)| leaf_view(leaf)) == leaves_of(*trie),
{
    keep_leaves(items(trie))
}

/// Whether the value of every leaf encodes an account.
pub open spec fn accounts_decode(leaves: Seq<(Nibbles, Seq<u8>)>) -> bool {
    forall|i: int| 0 <= i < leaves.len() ==> rlp_account((#[trigger] leaves[i]).1) is Some
}

/// The accounts that the leaves encode, under their keys.
pub open spec fn accounts(leaves: Seq<(Nibbles, Seq<u8>)>) -> Seq<(Nibbles, AccountRlp)> {
    leaves.map_values(|leaf: (Nibbles, Seq<u8>)| (leaf.0, rlp_account(leaf.1)->0))
}

/// Whether the trie lists its entries and each value in it encodes an account.
pub open spec fn holds_accounts(trie: PartialTrie) -> bool {
    &&& keys_fit(trie)
    &&& accounts_decode(leaves_of(trie))
}

/// The accounts in the trie, under their keys.
pub open spec fn accounts_of(trie: PartialTrie) -> Seq<(Nibbles, AccountRlp)> {
    accounts(leaves_of(trie))
}

/// Decodes the accounts that the leaves encode; `None` where one of them encodes no account.
pub fn decode_leaves(leaves: &Vec<(Nibbles, Vec<u8>)>) -> (decoded: Option<
    Vec<(Nibbles, AccountRlp)>,
>)
    ensures
        ({
            let views = leaves@.map_values(|leaf: (Nibbles, Vec<u8>)| leaf_view(leaf));
            match decoded {
                Some(decoded) => accounts_decode(views) && decoded@ == accounts(views),
                None => !accounts_decode(views),
            }
        }),
{
    let ghost views = leaves@.map_values(|leaf: (Nibbles, Vec<u8>)| leaf_view(leaf));
    let mut decoded: Vec<(Nibbles, AccountRlp)> = Vec::new();
    for i in 0..leaves.len()
        invariant
            views == leaves@.map_values(|leaf: (Nibbles, Vec<u8>)| leaf_view(leaf)),
            accounts_decode(views.take(i as int)),
            decoded@ == accounts(views.take(i as int)),
    {
        let leaf = &leaves[i];
        assert(views[i as int].1 == leaf.1@);
        match decode_account(leaf.1.as_slice()) {
            Some(account) => {
                decoded.push((leaf.0, account));
                assert(views.take(i + 1) == views.take(i as int).push(views[i as int]));
            },
            None => {
                return None;
            },
        }
    }
    assert(views.take(views.len() as int) == views);
    Some(decoded)
}

/// The accounts in the trie, under their keys; `None` where the trie cannot list them.
pub fn get_leaf_vals_from_trie_and_decode(trie: &PartialTrie) -> (decoded: Option<
    Vec<(Nibbles, AccountRlp)>,
>)
    ensures
        match decoded {
            Some(decoded) => holds_accounts(*trie) && decoded@ == accounts_of(*trie),
            None => !holds_accounts(*trie),
        },
{
    if check_keys_fit(trie) {
        let leaves = get_leaf_vals_from_trie(trie);
        decode_leaves(&leaves)
    } else {
        None
    }
}

} // verus!
