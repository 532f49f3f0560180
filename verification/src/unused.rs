//! Nodes of the tries before a block that the block's trace does not reach.

use crate::codec::{hash_address, hash_slot, hashed_address, hashed_slot};
use crate::errors::{
    views, HashedKeyAndUnhashedLookup, TraceVerificationError, TraceVerificationErrorView,
};
use crate::order::{
    in_order, keys_in_order, lemma_in_order, lemma_keys_are_ordered, lemma_words_are_ordered,
};
use crate::reverse_hash::{
    address_lookups, collect_slots_of_trace, has_leaf, has_storage_leaf,
    law_address_lookup_undoes_the_hash, law_slot_lookup_undoes_the_hash, leaf_keys_are_hashes,
    lemma_slots_of_trace, slot_lookups, slots_of_trace, slots_used, trace_reaches_slot,
    txn_reaches_slot, HashLookupAttempt, PartialTriePreImages, ReverseHashMapping,
};
use crate::trace::{addrs_used, TxnInfo, TxnTrace};
use crate::trie::{get_leaf_vals_from_trie, leaf_view, leaves_of};
use crate::types::{Address, HashedAccountAddr, Nibbles, StorageAddr, H256};
use eth_trie_utils::partial_trie::PartialTrie;
use std::collections::BTreeMap;
use std::collections::BTreeSet;
use vstd::prelude::*;

verus! {

/// The keys among these whose origin is not known, in their order.
pub open spec fn unknown_among<T>(
    lookups: Map<Nibbles, HashLookupAttempt<T>>,
    keys: Seq<Nibbles>,
) -> Seq<HashedKeyAndUnhashedLookup<T>>
    decreases keys.len(),
{
    if keys.len() == 0 {
        Seq::empty()
    } else {
        let before = unknown_among(lookups, keys.drop_last());
        let key = keys.last();
        if lookups[key].0 is None {
            before.push(HashedKeyAndUnhashedLookup { k: lookups[key], hashed: key })
        } else {
            before
        }
    }
}

/// The keys whose origin is not known, in ascending order.
pub open spec fn unknown_keys<T>(lookups: Map<Nibbles, HashLookupAttempt<T>>) -> Seq<
    HashedKeyAndUnhashedLookup<T>,
> {
    unknown_among(lookups, in_order(lookups.dom()))
}

/// What is reported of state nodes that the trace does not reach: one error with all of them.
pub open spec fn unused_state_errors(unused: Seq<HashedKeyAndUnhashedLookup<Address>>) -> Seq<
    TraceVerificationErrorView,
> {
    if unused.len() == 0 {
        Seq::empty()
    } else {
        seq![TraceVerificationErrorView::UnusedStateNodesInPreImage(unused)]
    }
}

/// What is reported of storage nodes that the trace does not reach: one error with all of them.
pub open spec fn unused_storage_errors(
    unused: Seq<HashedKeyAndUnhashedLookup<StorageAddr>>,
) -> Seq<TraceVerificationErrorView> {
    if unused.len() == 0 {
        Seq::empty()
    } else {
        seq![TraceVerificationErrorView::UnusedStorageNodesInPreImage(unused)]
    }
}

/// The keys whose origin is not known, in ascending order.
pub fn collect_unknown_keys<T: Copy>(lookups: &BTreeMap<Nibbles, HashLookupAttempt<T>>) -> (unknown:
    Vec<HashedKeyAndUnhashedLookup<T>>)
    ensures
        unknown@ == unknown_keys(lookups@),
{
    let keys = keys_in_order(lookups);
    let mut unknown: Vec<HashedKeyAndUnhashedLookup<T>> = Vec::new();
    for i in 0..keys.len()
        invariant
            keys@.to_set() == lookups@.dom(),
            unknown@ == unknown_among(lookups@, keys@.take(i as int)),
    {
        assert(keys@.take(i + 1).drop_last() == keys@.take(i as int));
        assert(keys@.to_set().contains(keys@[i as int]));
        let attempt = *lookups.get(&keys[i]).unwrap();
        if attempt.0.is_none() {
            unknown.push(HashedKeyAndUnhashedLookup { k: attempt, hashed: keys[i] });
        }
    }
    assert(keys@.take(keys@.len() as int) == keys@);
    unknown
}

/// Reports the nodes of the tries before the block whose origin the trace does not tell: the state
/// nodes in one error, then the storage nodes in one error.
pub fn verify_all_pre_image_nodes_are_used(
    mapping: &ReverseHashMapping,
    err_buf: &mut Vec<TraceVerificationError>,
)
    ensures
        views(final(err_buf)@) == views(old(err_buf)@) + unused_state_errors(
            unknown_keys(mapping.hashed_addr_to_addr@),
        ) + unused_storage_errors(unknown_keys(mapping.hashed_slot_to_slot@)),
{
    let unused = collect_unknown_keys(&mapping.hashed_addr_to_addr);
    if unused.len() > 0 {
        err_buf.push(TraceVerificationError::UnusedStateNodesInPreImage(unused));
    }
    let unused = collect_unknown_keys(&mapping.hashed_slot_to_slot);
    if unused.len() > 0 {
        err_buf.push(TraceVerificationError::UnusedStorageNodesInPreImage(unused));
    }
}

/// Whether a slot with this hash was read or written.
pub open spec fn trace_reaches_hash(trace: TxnTrace, h_slot: H256) -> bool {
    exists|slot: StorageAddr| #[trigger]
        trace_reaches_slot(trace, slot) && hashed_slot(slot) == h_slot
}

/// Whether the transaction read or wrote a slot with this hash in the account with this hashed
/// address.
pub open spec fn txn_reaches_leaf(txn: TxnInfo, h_addr: HashedAccountAddr, h_slot: H256) -> bool {
    exists|addr: Address| #[trigger]
        txn.traces@.contains_key(addr) && hashed_address(addr) == h_addr && trace_reaches_hash(
            txn.traces@[addr],
            h_slot,
        )
}

/// The storage leaves that the block reads or writes, as hashed addresses and hashed slots.
pub open spec fn leaves_reached(traces: Seq<TxnInfo>) -> Set<(HashedAccountAddr, H256)> {
    Set::new(
        |leaf: (HashedAccountAddr, H256)|
            exists|t: int|
                0 <= t < traces.len() && txn_reaches_leaf(#[trigger] traces[t], leaf.0, leaf.1),
    )
}

/// The leaves among these whose slot the trace tells, but that it does not reach in the account with
/// this hashed address.
pub open spec fn misplaced_among(
    h_addr: HashedAccountAddr,
    leaves: Seq<(Nibbles, Seq<u8>)>,
    lookups: Map<Nibbles, HashLookupAttempt<StorageAddr>>,
    reached: Set<(HashedAccountAddr, H256)>,
) -> Seq<HashedKeyAndUnhashedLookup<StorageAddr>>
    decreases leaves.len(),
{
    if leaves.len() == 0 {
        Seq::empty()
    } else {
        let before = misplaced_among(h_addr, leaves.drop_last(), lookups, reached);
        let key = leaves.last().0;
        if lookups[key].0 is Some && !reached.contains((h_addr, key.1)) {
            before.push(HashedKeyAndUnhashedLookup { k: lookups[key], hashed: key })
        } else {
            before
        }
    }
}

/// The leaves of these accounts' storage tries whose slot the trace tells, but only of other
/// accounts: account by account.
pub open spec fn misplaced_in(
    storage: Map<HashedAccountAddr, PartialTrie>,
    h_addrs: Seq<HashedAccountAddr>,
    lookups: Map<Nibbles, HashLookupAttempt<StorageAddr>>,
    reached: Set<(HashedAccountAddr, H256)>,
) -> Seq<HashedKeyAndUnhashedLookup<StorageAddr>>
    decreases h_addrs.len(),
{
    if h_addrs.len() == 0 {
        Seq::empty()
    } else {
        misplaced_in(storage, h_addrs.drop_last(), lookups, reached) + misplaced_among(
            h_addrs.last(),
            leaves_of(storage[h_addrs.last()]),
            lookups,
            reached,
        )
    }
}

/// The storage leaves whose slot the trace tells, but only of other accounts: by ascending hashed
/// address.
pub open spec fn misplaced_leaves(
    storage: Map<HashedAccountAddr, PartialTrie>,
    lookups: Map<Nibbles, HashLookupAttempt<StorageAddr>>,
    traces: Seq<TxnInfo>,
) -> Seq<HashedKeyAndUnhashedLookup<StorageAddr>> {
    misplaced_in(storage, in_order(storage.dom()), lookups, leaves_reached(traces))
}

/// Adds the leaves that this trace of the account reaches.
fn insert_leaves_of_trace(
    trace: &TxnTrace,
    h_addr: HashedAccountAddr,
    reached: &mut BTreeSet<(HashedAccountAddr, H256)>,
)
    ensures
        final(reached)@ == old(reached)@.union(
            Set::new(
                |leaf: (HashedAccountAddr, H256)|
                    leaf.0 == h_addr && trace_reaches_hash(*trace, leaf.1),
            ),
        ),
{
    let mut slots: Vec<StorageAddr> = Vec::new();
    collect_slots_of_trace(trace, &mut slots);
    assert(slots@ == slots_of_trace(*trace));
    for i in 0..slots.len()
        invariant
            forall|leaf: (HashedAccountAddr, H256)| #[trigger]
                reached@.contains(leaf) <==> old(reached)@.contains(leaf) || (leaf.0 == h_addr
                    && exists|j: int| 0 <= j < i && hashed_slot(#[trigger] slots@[j]) == leaf.1),
    {
        let h_slot = hash_slot(&slots[i]);
        assert(hashed_slot(slots@[i as int]) == h_slot);
        reached.insert((h_addr, h_slot));
    }
    proof {
        assert forall|h_slot: H256| trace_reaches_hash(*trace, h_slot) == exists|j: int|
            0 <= j < slots@.len() && hashed_slot(#[trigger] slots@[j]) == h_slot by {
            if trace_reaches_hash(*trace, h_slot) {
                let slot = choose|slot: StorageAddr| #[trigger]
                    trace_reaches_slot(*trace, slot) && hashed_slot(slot) == h_slot;
                lemma_slots_of_trace(*trace, slot);
                let j = choose|j: int| 0 <= j < slots@.len() && slots@[j] == slot;
                assert(hashed_slot(slots@[j]) == h_slot);
            }
            if exists|j: int| 0 <= j < slots@.len() && hashed_slot(#[trigger] slots@[j]) == h_slot {
                let j = choose|j: int|
                    0 <= j < slots@.len() && hashed_slot(#[trigger] slots@[j]) == h_slot;
                lemma_slots_of_trace(*trace, slots@[j]);
                assert(slots@.contains(slots@[j]));
                assert(trace_reaches_slot(*trace, slots@[j]));
            }
        }
    }
}

/// Adds the leaves that the transaction reaches.
fn insert_leaves_of_txn(txn: &TxnInfo, reached: &mut BTreeSet<(HashedAccountAddr, H256)>)
    ensures
        final(reached)@ == old(reached)@.union(
            Set::new(|leaf: (HashedAccountAddr, H256)| txn_reaches_leaf(*txn, leaf.0, leaf.1)),
        ),
{
    let addrs = keys_in_order(&txn.traces);
    for i in 0..addrs.len()
        invariant
            addrs@.to_set() == txn.traces@.dom(),
            forall|leaf: (HashedAccountAddr, H256)| #[trigger]
                reached@.contains(leaf) <==> old(reached)@.contains(leaf) || exists|j: int|
                    0 <= j < i && hashed_address(#[trigger] addrs@[j]) == leaf.0
                        && trace_reaches_hash(txn.traces@[addrs@[j]], leaf.1),
    {
        assert(addrs@.to_set().contains(addrs@[i as int]));
        let h_addr = hash_address(&addrs[i]);
        assert(hashed_address(addrs@[i as int]) == h_addr);
        insert_leaves_of_trace(txn.traces.get(&addrs[i]).unwrap(), h_addr, reached);
    }
    proof {
        assert forall|leaf: (HashedAccountAddr, H256)| txn_reaches_leaf(*txn, leaf.0, leaf.1)
            == exists|j: int|
            0 <= j < addrs@.len() && hashed_address(#[trigger] addrs@[j]) == leaf.0
                && trace_reaches_hash(txn.traces@[addrs@[j]], leaf.1) by {
            if txn_reaches_leaf(*txn, leaf.0, leaf.1) {
                let addr = choose|addr: Address| #[trigger]
                    txn.traces@.contains_key(addr) && hashed_address(addr) == leaf.0
                        && trace_reaches_hash(txn.traces@[addr], leaf.1);
                assert(addrs@.to_set().contains(addr));
                let j = choose|j: int| 0 <= j < addrs@.len() && addrs@[j] == addr;
                assert(hashed_address(addrs@[j]) == leaf.0);
            }
            if exists|j: int|
                0 <= j < addrs@.len() && hashed_address(#[trigger] addrs@[j]) == leaf.0
                    && trace_reaches_hash(txn.traces@[addrs@[j]], leaf.1) {
                let j = choose|j: int|
                    0 <= j < addrs@.len() && hashed_address(#[trigger] addrs@[j]) == leaf.0
                        && trace_reaches_hash(txn.traces@[addrs@[j]], leaf.1);
                assert(addrs@.to_set().contains(addrs@[j]));
                assert(txn.traces@.contains_key(addrs@[j]));
            }
        }
    }
}

/// The storage leaves that the block reads or writes, as hashed addresses and hashed slots.
pub fn collect_leaves_reached(traces: &[TxnInfo]) -> (reached: BTreeSet<(HashedAccountAddr, H256)>)
    ensures
        reached@ == leaves_reached(traces@),
{
    let mut reached: BTreeSet<(HashedAccountAddr, H256)> = BTreeSet::new();
    for t in 0..traces.len()
        invariant
            forall|leaf: (HashedAccountAddr, H256)| #[trigger]
                reached@.contains(leaf) <==> exists|s: int|
                    0 <= s < t && txn_reaches_leaf(#[trigger] traces@[s], leaf.0, leaf.1),
    {
        insert_leaves_of_txn(&traces[t], &mut reached);
    }
    reached
}

/// Whether the storage tries list their leaves, and what the trace tells of each of them has been
/// looked up.
pub open spec fn storage_is_looked_up(
    storage: Map<HashedAccountAddr, PartialTrie>,
    lookups: Map<Nibbles, HashLookupAttempt<StorageAddr>>,
) -> bool {
    &&& forall|h_addr: HashedAccountAddr| #[trigger]
        storage.contains_key(h_addr) ==> leaf_keys_are_hashes(storage[h_addr])
    &&& forall|key: Nibbles| #[trigger] has_storage_leaf(storage, key) ==> lookups.contains_key(key)
}

/// Reports the storage nodes before the block whose slot the trace tells, but only of other accounts,
/// in one error.
pub fn verify_all_pre_image_slots_are_used_by_their_accounts(
    storage: &BTreeMap<HashedAccountAddr, PartialTrie>,
    traces: &[TxnInfo],
    mapping: &ReverseHashMapping,
    err_buf: &mut Vec<TraceVerificationError>,
)
    requires
        storage_is_looked_up(storage@, mapping.hashed_slot_to_slot@),
    ensures
        views(final(err_buf)@) == views(old(err_buf)@) + unused_storage_errors(
            misplaced_leaves(storage@, mapping.hashed_slot_to_slot@, traces@),
        ),
{
    let lookups = &mapping.hashed_slot_to_slot;
    let reached = collect_leaves_reached(traces);
    let h_addrs = keys_in_order(storage);
    let mut unused: Vec<HashedKeyAndUnhashedLookup<StorageAddr>> = Vec::new();
    for i in 0..h_addrs.len()
        invariant
            storage_is_looked_up(storage@, lookups@),
            h_addrs@.to_set() == storage@.dom(),
            unused@ == misplaced_in(storage@, h_addrs@.take(i as int), lookups@, reached@),
    {
        let h_addr = h_addrs[i];
        assert(h_addrs@.take(i + 1).drop_last() == h_addrs@.take(i as int));
        assert(h_addrs@.to_set().contains(h_addr));
        assert(storage@.contains_key(h_addr));
        let s_trie = storage.get(&h_addr).unwrap();
        let leaves = get_leaf_vals_from_trie(s_trie);
        let ghost views = leaves_of(*s_trie);
        let ghost before = unused@;
        assert(views == leaves@.map_values(|leaf: (Nibbles, Vec<u8>)| leaf_view(leaf)));
        for j in 0..leaves.len()
            invariant
                storage_is_looked_up(storage@, lookups@),
                storage@.contains_key(h_addr),
                *s_trie == storage@[h_addr],
                views == leaves_of(*s_trie),
                views == leaves@.map_values(|leaf: (Nibbles, Vec<u8>)| leaf_view(leaf)),
                unused@ == before + misplaced_among(
                    h_addr,
                    views.take(j as int),
                    lookups@,
                    reached@,
                ),
        {
            let key = leaves[j].0;
            assert(views.take(j + 1).drop_last() == views.take(j as int));
            assert(views[j as int].0 == key);
            assert(has_leaf(storage@[h_addr], key));
            assert(has_storage_leaf(storage@, key));
            let attempt = *lookups.get(&key).unwrap();
            if attempt.0.is_some() && !reached.contains(&(h_addr, key.1)) {
                unused.push(HashedKeyAndUnhashedLookup { k: attempt, hashed: key });
            }
        }
        assert(views.take(views.len() as int) == views);
    }
    assert(h_addrs@.take(h_addrs@.len() as int) == h_addrs@);
    if unused.len() > 0 {
        err_buf.push(TraceVerificationError::UnusedStorageNodesInPreImage(unused));
    }
}

proof fn lemma_unknown_among<T>(
    lookups: Map<Nibbles, HashLookupAttempt<T>>,
    keys: Seq<Nibbles>,
    key: Nibbles,
)
    ensures
        (exists|i: int|
            0 <= i < unknown_among(lookups, keys).len() && (#[trigger] unknown_among(
                lookups,
                keys,
            )[i]).hashed == key) <==> keys.contains(key) && lookups[key].0 is None,
        forall|i: int|
            0 <= i < unknown_among(lookups, keys).len() ==> {
                let item = #[trigger] unknown_among(lookups, keys)[i];
                item.k == lookups[item.hashed]
            },
    decreases keys.len(),
{
    if keys.len() > 0 {
        let rest = keys.drop_last();
        let before = unknown_among(lookups, rest);
        let unknown = unknown_among(lookups, keys);
        lemma_unknown_among(lookups, rest, key);
        assert forall|i: int| 0 <= i < unknown.len() implies ({
            let item = #[trigger] unknown[i];
            item.k == lookups[item.hashed]
        }) by {
            if i < before.len() {
                assert(unknown[i] == before[i]);
            }
        }
        if exists|i: int| 0 <= i < before.len() && (#[trigger] before[i]).hashed == key {
            let i = choose|i: int| 0 <= i < before.len() && (#[trigger] before[i]).hashed == key;
            assert(unknown[i] == before[i]);
            let j = choose|j: int| 0 <= j < rest.len() && rest[j] == key;
            assert(keys[j] == key);
        }
        if keys.contains(key) && lookups[key].0 is None {
            let j = choose|j: int| 0 <= j < keys.len() && keys[j] == key;
            if j < rest.len() {
                assert(rest[j] == key);
            } else {
                assert(unknown[unknown.len() - 1].hashed == key);
            }
        }
        if exists|i: int| 0 <= i < unknown.len() && (#[trigger] unknown[i]).hashed == key {
            let i = choose|i: int| 0 <= i < unknown.len() && (#[trigger] unknown[i]).hashed == key;
            if i < before.len() {
                assert(before[i] == unknown[i]);
            } else {
                assert(keys[keys.len() - 1] == key);
            }
        }
    }
}

/// The list of unknown keys has exactly those whose lookup found nothing, each with that lookup.
proof fn lemma_unknown_keys<T>(lookups: Map<Nibbles, HashLookupAttempt<T>>, key: Nibbles)
    requires
        lookups.dom().finite(),
    ensures
        unknown_keys(lookups).contains(
            (HashedKeyAndUnhashedLookup { k: HashLookupAttempt(None), hashed: key }),
        ) <==> lookups.contains_key(key) && lookups[key].0 is None,
        unknown_keys(lookups).len() > 0 ==> {
            let first = unknown_keys(lookups)[0].hashed;
            lookups.contains_key(first) && lookups[first].0 is None
        },
{
    let keys = in_order(lookups.dom());
    let unknown = unknown_keys(lookups);
    lemma_keys_are_ordered();
    lemma_in_order(lookups.dom());
    lemma_unknown_among(lookups, keys, key);
    assert(keys.to_set().contains(key) == lookups.contains_key(key));
    if keys.contains(key) && lookups[key].0 is None {
        let i = choose|i: int| 0 <= i < unknown.len() && (#[trigger] unknown[i]).hashed == key;
        assert(unknown[i] == HashedKeyAndUnhashedLookup::<T> {
            k: HashLookupAttempt(None),
            hashed: key,
        });
    }
    if unknown.len() > 0 {
        let first = unknown[0].hashed;
        lemma_unknown_among(lookups, keys, first);
        assert(keys.to_set().contains(first));
    }
}

proof fn lemma_leaf_keys_are_finite(trie: PartialTrie)
    ensures
        Set::new(|key: Nibbles| has_leaf(trie, key)).finite(),
{
    let keys = leaves_of(trie).map_values(|leaf: (Nibbles, Seq<u8>)| leaf.0);
    vstd::seq_lib::seq_to_set_is_finite(keys);
    assert(Set::new(|key: Nibbles| has_leaf(trie, key)) =~= keys.to_set()) by {
        assert forall|key: Nibbles| has_leaf(trie, key) == keys.contains(key) by {
            if has_leaf(trie, key) {
                let i = choose|i: int|
                    0 <= i < leaves_of(trie).len() && (#[trigger] leaves_of(trie)[i]).0 == key;
                assert(keys[i] == key);
            }
            if keys.contains(key) {
                let i = choose|i: int| 0 <= i < keys.len() && keys[i] == key;
                assert(leaves_of(trie)[i].0 == key);
            }
        }
    }
}

proof fn lemma_leaf_keys_of_tries_are_finite(
    storage: Map<HashedAccountAddr, PartialTrie>,
    h_addrs: Seq<HashedAccountAddr>,
)
    ensures
        Set::new(
            |key: Nibbles|
                exists|i: int|
                    0 <= i < h_addrs.len() && has_leaf(storage[#[trigger] h_addrs[i]], key),
        ).finite(),
    decreases h_addrs.len(),
{
    let keys = Set::new(
        |key: Nibbles|
            exists|i: int| 0 <= i < h_addrs.len() && has_leaf(storage[#[trigger] h_addrs[i]], key),
    );
    if h_addrs.len() == 0 {
        assert(keys =~= Set::empty());
    } else {
        let rest = h_addrs.drop_last();
        let before = Set::new(
            |key: Nibbles|
                exists|i: int| 0 <= i < rest.len() && has_leaf(storage[#[trigger] rest[i]], key),
        );
        let now = Set::new(|key: Nibbles| has_leaf(storage[h_addrs.last()], key));
        lemma_leaf_keys_of_tries_are_finite(storage, rest);
        lemma_leaf_keys_are_finite(storage[h_addrs.last()]);
        assert(keys =~= before.union(now)) by {
            assert forall|key: Nibbles| keys.contains(key) == (before.contains(key) || now.contains(
                key,
            )) by {
                if before.contains(key) {
                    let i = choose|i: int|
                        0 <= i < rest.len() && has_leaf(storage[#[trigger] rest[i]], key);
                    assert(has_leaf(storage[h_addrs[i]], key));
                }
                if now.contains(key) {
                    assert(has_leaf(storage[h_addrs[h_addrs.len() - 1]], key));
                }
                if keys.contains(key) {
                    let i = choose|i: int|
                        0 <= i < h_addrs.len() && has_leaf(storage[#[trigger] h_addrs[i]], key);
                    if i < rest.len() {
                        assert(has_leaf(storage[rest[i]], key));
                    }
                }
            }
        }
    }
}

proof fn lemma_storage_keys_are_finite(storage: Map<HashedAccountAddr, PartialTrie>)
    requires
        storage.dom().finite(),
    ensures
        Set::new(|key: Nibbles| has_storage_leaf(storage, key)).finite(),
{
    let h_addrs = in_order(storage.dom());
    lemma_words_are_ordered();
    lemma_in_order(storage.dom());
    lemma_leaf_keys_of_tries_are_finite(storage, h_addrs);
    let keys = Set::new(
        |key: Nibbles|
            exists|i: int| 0 <= i < h_addrs.len() && has_leaf(storage[#[trigger] h_addrs[i]], key),
    );
    assert(Set::new(|key: Nibbles| has_storage_leaf(storage, key)) =~= keys) by {
        assert forall|key: Nibbles| has_storage_leaf(storage, key) == keys.contains(key) by {
            if has_storage_leaf(storage, key) {
                let h_addr = choose|h_addr: HashedAccountAddr| #[trigger]
                    storage.contains_key(h_addr) && has_leaf(storage[h_addr], key);
                assert(h_addrs.to_set().contains(h_addr));
                let i = choose|i: int| 0 <= i < h_addrs.len() && h_addrs[i] == h_addr;
                assert(has_leaf(storage[h_addrs[i]], key));
            }
            if keys.contains(key) {
                let i = choose|i: int|
                    0 <= i < h_addrs.len() && has_leaf(storage[#[trigger] h_addrs[i]], key);
                assert(h_addrs.to_set().contains(h_addrs[i]));
                assert(storage.contains_key(h_addrs[i]));
            }
        }
    }
}

/// Whether the trace mentions an address with this hash.
pub open spec fn address_is_used(traces: Seq<TxnInfo>, h_addr: H256) -> bool {
    exists|addr: Address| #[trigger]
        addrs_used(traces).contains(addr) && hashed_address(addr) == h_addr
}

/// Whether every leaf of the state trie belongs to an address that the trace mentions.
pub open spec fn state_is_used(state: PartialTrie, traces: Seq<TxnInfo>) -> bool {
    forall|key: Nibbles| #[trigger] has_leaf(state, key) ==> address_is_used(traces, key.1)
}

/// Whether the trace reaches every leaf of the storage tries, in the account that the leaf belongs
/// to.
pub open spec fn storage_is_used(
    storage: Map<HashedAccountAddr, PartialTrie>,
    traces: Seq<TxnInfo>,
) -> bool {
    forall|h_addr: HashedAccountAddr, key: Nibbles|
        #![trigger has_leaf(storage[h_addr], key)]
        storage.contains_key(h_addr) && has_leaf(storage[h_addr], key) ==> leaves_reached(
            traces,
        ).contains((h_addr, key.1))
}

/// A leaf of the state trie is listed as unused exactly where the trace mentions no address with its
/// hash.
pub proof fn law_unused_state_leaves_are_listed(
    state: PartialTrie,
    traces: Seq<TxnInfo>,
    key: Nibbles,
)
    ensures
        unknown_keys(address_lookups(state, traces)).contains(
            (HashedKeyAndUnhashedLookup { k: HashLookupAttempt(None), hashed: key }),
        ) <==> has_leaf(state, key) && !address_is_used(traces, key.1),
{
    let lookups = address_lookups(state, traces);
    lemma_leaf_keys_are_finite(state);
    assert(lookups.dom() =~= Set::new(|key: Nibbles| has_leaf(state, key)));
    lemma_unknown_keys(lookups, key);
    law_address_lookup_undoes_the_hash(traces, key.1);
}

/// No state node is reported as unused exactly where every leaf belongs to an address that the trace
/// mentions.
pub proof fn law_used_state_passes(state: PartialTrie, traces: Seq<TxnInfo>)
    ensures
        unused_state_errors(unknown_keys(address_lookups(state, traces))).len() == 0
            <==> state_is_used(state, traces),
{
    let lookups = address_lookups(state, traces);
    let unknown = unknown_keys(lookups);
    lemma_leaf_keys_are_finite(state);
    assert(lookups.dom() =~= Set::new(|key: Nibbles| has_leaf(state, key)));
    if unknown.len() > 0 {
        let key = unknown[0].hashed;
        lemma_unknown_keys(lookups, key);
        law_unused_state_leaves_are_listed(state, traces, key);
        assert(has_leaf(state, key) && !address_is_used(traces, key.1));
    } else {
        assert forall|key: Nibbles| #[trigger] has_leaf(state, key) implies address_is_used(
            traces,
            key.1,
        ) by {
            law_unused_state_leaves_are_listed(state, traces, key);
        }
    }
}

proof fn lemma_misplaced_among(
    h_addr: HashedAccountAddr,
    leaves: Seq<(Nibbles, Seq<u8>)>,
    lookups: Map<Nibbles, HashLookupAttempt<StorageAddr>>,
    reached: Set<(HashedAccountAddr, H256)>,
    key: Nibbles,
)
    ensures
        misplaced_among(h_addr, leaves, lookups, reached).contains(
            (HashedKeyAndUnhashedLookup { k: lookups[key], hashed: key }),
        ) <==> lookups[key].0 is Some && !reached.contains((h_addr, key.1)) && exists|i: int|
            0 <= i < leaves.len() && (#[trigger] leaves[i]).0 == key,
        forall|i: int|
            0 <= i < misplaced_among(h_addr, leaves, lookups, reached).len() ==> {
                let item = #[trigger] misplaced_among(h_addr, leaves, lookups, reached)[i];
                item.k == lookups[item.hashed]
            },
    decreases leaves.len(),
{
    let item = HashedKeyAndUnhashedLookup { k: lookups[key], hashed: key };
    if leaves.len() > 0 {
        let rest = leaves.drop_last();
        let before = misplaced_among(h_addr, rest, lookups, reached);
        let misplaced = misplaced_among(h_addr, leaves, lookups, reached);
        lemma_misplaced_among(h_addr, rest, lookups, reached, key);
        assert forall|i: int| 0 <= i < misplaced.len() implies ({
            let item = #[trigger] misplaced[i];
            item.k == lookups[item.hashed]
        }) by {
            if i < before.len() {
                assert(misplaced[i] == before[i]);
            }
        }
        if before.contains(item) {
            let i = choose|i: int| 0 <= i < before.len() && before[i] == item;
            assert(misplaced[i] == item);
            let j = choose|j: int| 0 <= j < rest.len() && (#[trigger] rest[j]).0 == key;
            assert(leaves[j].0 == key);
        }
        if misplaced.contains(item) {
            let i = choose|i: int| 0 <= i < misplaced.len() && misplaced[i] == item;
            if i < before.len() {
                assert(before[i] == item);
            } else {
                assert(leaves[leaves.len() - 1].0 == key);
            }
        }
        if exists|i: int| 0 <= i < leaves.len() && (#[trigger] leaves[i]).0 == key {
            let i = choose|i: int| 0 <= i < leaves.len() && (#[trigger] leaves[i]).0 == key;
            if i < rest.len() {
                assert(rest[i].0 == key);
            } else if lookups[key].0 is Some && !reached.contains((h_addr, key.1)) {
                assert(misplaced[misplaced.len() - 1] == item);
            }
        }
    }
}

proof fn lemma_misplaced_in(
    storage: Map<HashedAccountAddr, PartialTrie>,
    h_addrs: Seq<HashedAccountAddr>,
    lookups: Map<Nibbles, HashLookupAttempt<StorageAddr>>,
    reached: Set<(HashedAccountAddr, H256)>,
    key: Nibbles,
)
    ensures
        misplaced_in(storage, h_addrs, lookups, reached).contains(
            (HashedKeyAndUnhashedLookup { k: lookups[key], hashed: key }),
        ) <==> lookups[key].0 is Some && exists|i: int|
            0 <= i < h_addrs.len() && has_leaf(storage[#[trigger] h_addrs[i]], key)
                && !reached.contains((h_addrs[i], key.1)),
        forall|i: int|
            0 <= i < misplaced_in(storage, h_addrs, lookups, reached).len() ==> {
                let item = #[trigger] misplaced_in(storage, h_addrs, lookups, reached)[i];
                item.k == lookups[item.hashed]
            },
    decreases h_addrs.len(),
{
    let item = HashedKeyAndUnhashedLookup { k: lookups[key], hashed: key };
    if h_addrs.len() > 0 {
        let rest = h_addrs.drop_last();
        let last = h_addrs.last();
        let before = misplaced_in(storage, rest, lookups, reached);
        let now = misplaced_among(last, leaves_of(storage[last]), lookups, reached);
        let misplaced = misplaced_in(storage, h_addrs, lookups, reached);
        lemma_misplaced_in(storage, rest, lookups, reached, key);
        lemma_misplaced_among(last, leaves_of(storage[last]), lookups, reached, key);
        assert forall|i: int| 0 <= i < misplaced.len() implies ({
            let item = #[trigger] misplaced[i];
            item.k == lookups[item.hashed]
        }) by {
            if i < before.len() {
                assert(misplaced[i] == before[i]);
            } else {
                assert(misplaced[i] == now[i - before.len()]);
            }
        }
        if before.contains(item) {
            let i = choose|i: int| 0 <= i < before.len() && before[i] == item;
            assert(misplaced[i] == item);
            let j = choose|j: int|
                0 <= j < rest.len() && has_leaf(storage[#[trigger] rest[j]], key)
                    && !reached.contains((rest[j], key.1));
            assert(h_addrs[j] == rest[j]);
        }
        if now.contains(item) {
            let i = choose|i: int| 0 <= i < now.len() && now[i] == item;
            assert(misplaced[before.len() + i] == item);
            assert(has_leaf(storage[h_addrs[h_addrs.len() - 1]], key));
        }
        if misplaced.contains(item) {
            let i = choose|i: int| 0 <= i < misplaced.len() && misplaced[i] == item;
            if i < before.len() {
                assert(before[i] == item);
            } else {
                assert(now[i - before.len()] == item);
            }
        }
        if lookups[key].0 is Some && exists|i: int|
            0 <= i < h_addrs.len() && has_leaf(storage[#[trigger] h_addrs[i]], key)
                && !reached.contains((h_addrs[i], key.1)) {
            let i = choose|i: int|
                0 <= i < h_addrs.len() && has_leaf(storage[#[trigger] h_addrs[i]], key)
                    && !reached.contains((h_addrs[i], key.1));
            if i < rest.len() {
                assert(rest[i] == h_addrs[i]);
            } else {
                assert(now.contains(item));
            }
        }
    }
}

/// A slot that the trace reaches in some account is one that the trace mentions.
proof fn lemma_reached_slots_are_used(
    traces: Seq<TxnInfo>,
    h_addr: HashedAccountAddr,
    h_slot: H256,
) -> (slot: StorageAddr)
    requires
        leaves_reached(traces).contains((h_addr, h_slot)),
    ensures
        slots_used(traces).contains(slot),
        hashed_slot(slot) == h_slot,
{
    let t = choose|t: int|
        0 <= t < traces.len() && txn_reaches_leaf(#[trigger] traces[t], h_addr, h_slot);
    let addr = choose|addr: Address| #[trigger]
        traces[t].traces@.contains_key(addr) && hashed_address(addr) == h_addr
            && trace_reaches_hash(traces[t].traces@[addr], h_slot);
    let slot = choose|slot: StorageAddr| #[trigger]
        trace_reaches_slot(traces[t].traces@[addr], slot) && hashed_slot(slot) == h_slot;
    assert(txn_reaches_slot(traces[t], slot));
    slot
}

/// Whether a storage key is listed as unused: its slot is unknown, or known of other accounts only.
pub open spec fn storage_key_is_listed(
    storage: Map<HashedAccountAddr, PartialTrie>,
    traces: Seq<TxnInfo>,
    key: Nibbles,
) -> bool {
    let lookups = slot_lookups(storage, traces);
    let item = HashedKeyAndUnhashedLookup { k: lookups[key], hashed: key };
    ||| unknown_keys(lookups).contains(item)
    ||| misplaced_leaves(storage, lookups, traces).contains(item)
}

/// A storage key is listed as unused exactly where the trace does not reach one of the leaves with
/// that key, in the account that the leaf belongs to.
pub proof fn law_unused_storage_leaves_are_listed(
    pre_image: PartialTriePreImages,
    traces: Seq<TxnInfo>,
    key: Nibbles,
)
    ensures
        storage_key_is_listed(pre_image.storage@, traces, key) <==> exists|
            h_addr: HashedAccountAddr,
        | #[trigger]
            pre_image.storage@.contains_key(h_addr) && has_leaf(pre_image.storage@[h_addr], key)
                && !leaves_reached(traces).contains((h_addr, key.1)),
{
    let storage = pre_image.storage@;
    let lookups = slot_lookups(storage, traces);
    let h_addrs = in_order(storage.dom());
    let reached = leaves_reached(traces);
    let item = HashedKeyAndUnhashedLookup { k: lookups[key], hashed: key };
    lemma_words_are_ordered();
    lemma_in_order(storage.dom());
    lemma_storage_keys_are_finite(storage);
    assert(lookups.dom() =~= Set::new(|key: Nibbles| has_storage_leaf(storage, key)));
    lemma_unknown_keys(lookups, key);
    lemma_unknown_among(lookups, in_order(lookups.dom()), key);
    lemma_misplaced_in(storage, h_addrs, lookups, reached, key);
    law_slot_lookup_undoes_the_hash(traces, key.1);
    if unknown_keys(lookups).contains(item) {
        lemma_keys_are_ordered();
        lemma_in_order(lookups.dom());
        let i = choose|i: int|
            0 <= i < unknown_keys(lookups).len() && unknown_keys(lookups)[i] == item;
        assert(in_order(lookups.dom()).to_set().contains(key));
        assert(lookups.contains_key(key));
        let h_addr = choose|h_addr: HashedAccountAddr| #[trigger]
            storage.contains_key(h_addr) && has_leaf(storage[h_addr], key);
        if reached.contains((h_addr, key.1)) {
            let slot = lemma_reached_slots_are_used(traces, h_addr, key.1);
            assert(false);
        }
    }
    if misplaced_leaves(storage, lookups, traces).contains(item) {
        let i = choose|i: int|
            0 <= i < h_addrs.len() && has_leaf(storage[#[trigger] h_addrs[i]], key)
                && !reached.contains((h_addrs[i], key.1));
        assert(h_addrs.to_set().contains(h_addrs[i]));
        assert(storage.contains_key(h_addrs[i]));
    }
    if exists|h_addr: HashedAccountAddr| #[trigger]
        storage.contains_key(h_addr) && has_leaf(storage[h_addr], key) && !reached.contains(
            (h_addr, key.1),
        ) {
        let h_addr = choose|h_addr: HashedAccountAddr| #[trigger]
            storage.contains_key(h_addr) && has_leaf(storage[h_addr], key) && !reached.contains(
                (h_addr, key.1),
            );
        assert(has_storage_leaf(storage, key));
        assert(lookups.contains_key(key));
        assert(h_addrs.to_set().contains(h_addr));
        let i = choose|i: int| 0 <= i < h_addrs.len() && h_addrs[i] == h_addr;
        assert(has_leaf(storage[h_addrs[i]], key));
    }
}

/// No storage node is reported as unused exactly where the trace reaches every leaf, in the account
/// that the leaf belongs to.
pub proof fn law_used_storage_passes(pre_image: PartialTriePreImages, traces: Seq<TxnInfo>)
    ensures
        ({
            let lookups = slot_lookups(pre_image.storage@, traces);
            (unused_storage_errors(unknown_keys(lookups)) + unused_storage_errors(
                misplaced_leaves(pre_image.storage@, lookups, traces),
            )).len() == 0 <==> storage_is_used(pre_image.storage@, traces)
        }),
{
    let storage = pre_image.storage@;
    let lookups = slot_lookups(storage, traces);
    let unknown = unknown_keys(lookups);
    let misplaced = misplaced_leaves(storage, lookups, traces);
    lemma_storage_keys_are_finite(storage);
    assert(lookups.dom() =~= Set::new(|key: Nibbles| has_storage_leaf(storage, key)));
    if unknown.len() > 0 {
        let key = unknown[0].hashed;
        lemma_unknown_among(lookups, in_order(lookups.dom()), key);
        assert(unknown.contains(unknown[0]));
        assert(storage_key_is_listed(storage, traces, key));
        law_unused_storage_leaves_are_listed(pre_image, traces, key);
    }
    if misplaced.len() > 0 {
        let key = misplaced[0].hashed;
        lemma_misplaced_in(storage, in_order(storage.dom()), lookups, leaves_reached(traces), key);
        assert(misplaced.contains(misplaced[0]));
        assert(storage_key_is_listed(storage, traces, key));
        law_unused_storage_leaves_are_listed(pre_image, traces, key);
    }
    if unknown.len() == 0 && misplaced.len() == 0 {
        assert forall|h_addr: HashedAccountAddr, key: Nibbles|
            #![trigger has_leaf(storage[h_addr], key)]
            storage.contains_key(h_addr) && has_leaf(storage[h_addr], key) implies leaves_reached(
            traces,
        ).contains((h_addr, key.1)) by {
            law_unused_storage_leaves_are_listed(pre_image, traces, key);
        }
    }
}

/// Whatever is listed as unused is the key of a leaf.
pub proof fn law_listed_keys_are_leaves(pre_image: PartialTriePreImages, traces: Seq<TxnInfo>)
    ensures
        ({
            let slots = slot_lookups(pre_image.storage@, traces);
            let unused_state = unknown_keys(address_lookups(pre_image.state, traces));
            let unknown_slots = unknown_keys(slots);
            let misplaced = misplaced_leaves(pre_image.storage@, slots, traces);
            &&& forall|i: int|
                0 <= i < unused_state.len() ==> has_leaf(
                    pre_image.state,
                    (#[trigger] unused_state[i]).hashed,
                )
            &&& forall|i: int|
                0 <= i < unknown_slots.len() ==> has_storage_leaf(
                    pre_image.storage@,
                    (#[trigger] unknown_slots[i]).hashed,
                )
            &&& forall|i: int|
                0 <= i < misplaced.len() ==> has_storage_leaf(
                    pre_image.storage@,
                    (#[trigger] misplaced[i]).hashed,
                )
        }),
{
    let storage = pre_image.storage@;
    let addrs = address_lookups(pre_image.state, traces);
    let slots = slot_lookups(storage, traces);
    let unused_state = unknown_keys(addrs);
    let unknown_slots = unknown_keys(slots);
    let misplaced = misplaced_leaves(storage, slots, traces);
    lemma_keys_are_ordered();
    lemma_words_are_ordered();
    lemma_leaf_keys_are_finite(pre_image.state);
    assert(addrs.dom() =~= Set::new(|key: Nibbles| has_leaf(pre_image.state, key)));
    lemma_in_order(addrs.dom());
    lemma_storage_keys_are_finite(storage);
    assert(slots.dom() =~= Set::new(|key: Nibbles| has_storage_leaf(storage, key)));
    lemma_in_order(slots.dom());
    assert forall|i: int| 0 <= i < unused_state.len() implies has_leaf(
        pre_image.state,
        (#[trigger] unused_state[i]).hashed,
    ) by {
        let key = unused_state[i].hashed;
        lemma_unknown_among(addrs, in_order(addrs.dom()), key);
        assert(in_order(addrs.dom()).to_set().contains(key));
    }
    assert forall|i: int| 0 <= i < unknown_slots.len() implies has_storage_leaf(
        storage,
        (#[trigger] unknown_slots[i]).hashed,
    ) by {
        let key = unknown_slots[i].hashed;
        lemma_unknown_among(slots, in_order(slots.dom()), key);
        assert(in_order(slots.dom()).to_set().contains(key));
    }
    assert forall|i: int| 0 <= i < misplaced.len() implies has_storage_leaf(
        storage,
        (#[trigger] misplaced[i]).hashed,
    ) by {
        let key = misplaced[i].hashed;
        lemma_misplaced_in(storage, in_order(storage.dom()), slots, leaves_reached(traces), key);
        assert(misplaced.contains(misplaced[i]));
        assert(storage_key_is_listed(storage, traces, key));
        law_unused_storage_leaves_are_listed(pre_image, traces, key);
        let h_addr = choose|h_addr: HashedAccountAddr| #[trigger]
            storage.contains_key(h_addr) && has_leaf(storage[h_addr], key)
                && !leaves_reached(traces).contains((h_addr, key.1));
        assert(has_storage_leaf(storage, key));
    }
}

} // verus!
