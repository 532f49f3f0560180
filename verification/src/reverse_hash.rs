//! From hashed addresses and slots back to the addresses and slots of a trace.

use crate::codec::{hash_address, hash_slot, hashed_address, hashed_slot};
use crate::order::{
    in_order, keys_in_order, lemma_addresses_are_ordered, lemma_in_order, lemma_words_are_ordered,
};
use crate::trace::{addrs_used, TxnInfo, TxnTrace};
use crate::trie::{get_leaf_vals_from_trie, keys_fit, leaf_view, leaves_of};
use crate::types::{
    fills_hash, hash_of_nibbles, Address, HashedAccountAddr, HashedAccountAddrNibbles,
    HashedStorageAddrNibbles, Nibbles, StorageAddr, H256,
};
use eth_trie_utils::partial_trie::PartialTrie;
use std::collections::BTreeMap;
use vstd::prelude::*;

verus! {

/// What an attempt to undo a hash found.
#[derive(Copy, Debug)]
pub struct HashLookupAttempt<T>(pub Option<T>);

impl<T: Copy> Clone for HashLookupAttempt<T> {
    fn clone(&self) -> (copy: Self)
        ensures
            copy == *self,
    {
        HashLookupAttempt(self.0)
    }
}

impl<T> vstd::std_specs::convert::FromSpecImpl<Option<T>> for HashLookupAttempt<T> {
    open spec fn obeys_from_spec() -> bool {
        true
    }

    open spec fn from_spec(v: Option<T>) -> Self {
        HashLookupAttempt(v)
    }
}

impl<T> From<Option<T>> for HashLookupAttempt<T> {
    fn from(v: Option<T>) -> (attempt: Self) {
        HashLookupAttempt(v)
    }
}

/// The tries of a block before its first transaction.
pub struct PartialTriePreImages {
    /// The accounts, under their hashed addresses.
    pub state: PartialTrie,
    /// The storage of accounts, by their hashed addresses.
    pub storage: BTreeMap<HashedAccountAddr, PartialTrie>,
}

/// For each hashed key of the tries before a block, what the block's trace tells of its origin.
pub struct ReverseHashMapping {
    pub hashed_addr_to_addr: BTreeMap<HashedAccountAddrNibbles, HashLookupAttempt<Address>>,
    pub hashed_slot_to_slot: BTreeMap<HashedStorageAddrNibbles, HashLookupAttempt<StorageAddr>>,
}

/// The addresses with their hashes.
pub open spec fn with_hashed_addresses(addrs: Seq<Address>) -> Seq<(H256, Address)> {
    addrs.map_values(|addr: Address| (hashed_address(addr), addr))
}

/// The slots with their hashes.
pub open spec fn with_hashed_slots(slots: Seq<StorageAddr>) -> Seq<(H256, StorageAddr)> {
    slots.map_values(|slot: StorageAddr| (hashed_slot(slot), slot))
}

/// The addresses that the trace mentions, with their hashes, transaction by transaction.
pub open spec fn known_addresses(traces: Seq<TxnInfo>) -> Seq<(H256, Address)>
    decreases traces.len(),
{
    if traces.len() == 0 {
        Seq::empty()
    } else {
        known_addresses(traces.drop_last()) + with_hashed_addresses(
            in_order(traces.last().traces@.dom()),
        )
    }
}

/// The slots that were read, then those that were written.
pub open spec fn slots_of_trace(trace: TxnTrace) -> Seq<StorageAddr> {
    let read = match trace.storage_read {
        Some(read) => read@,
        None => Seq::empty(),
    };
    let written = match trace.storage_written {
        Some(written) => in_order(written@.dom()),
        None => Seq::empty(),
    };
    read + written
}

/// The slots that the transaction reached in these accounts, account by account.
pub open spec fn slots_of_accounts(
    traces: Map<Address, TxnTrace>,
    addrs: Seq<Address>,
) -> Seq<StorageAddr>
    decreases addrs.len(),
{
    if addrs.len() == 0 {
        Seq::empty()
    } else {
        slots_of_accounts(traces, addrs.drop_last()) + slots_of_trace(traces[addrs.last()])
    }
}

/// The slots that the transaction reached.
pub open spec fn slots_of_txn(txn: TxnInfo) -> Seq<StorageAddr> {
    slots_of_accounts(txn.traces@, in_order(txn.traces@.dom()))
}

/// The slots that the trace mentions, with their hashes, transaction by transaction.
pub open spec fn known_slots(traces: Seq<TxnInfo>) -> Seq<(H256, StorageAddr)>
    decreases traces.len(),
{
    if traces.len() == 0 {
        Seq::empty()
    } else {
        known_slots(traces.drop_last()) + with_hashed_slots(slots_of_txn(traces.last()))
    }
}

/// The map that is left once every pair has been entered in turn.
pub open spec fn insert_all<T>(map: Map<H256, T>, pairs: Seq<(H256, T)>) -> Map<H256, T>
    decreases pairs.len(),
{
    if pairs.len() == 0 {
        map
    } else {
        insert_all(map, pairs.drop_last()).insert(pairs.last().0, pairs.last().1)
    }
}

/// The pairs as a map from hashes to their origins.
pub open spec fn index<T>(pairs: Seq<(H256, T)>) -> Map<H256, T> {
    insert_all(Map::empty(), pairs)
}

/// What the index tells of a hash.
pub open spec fn lookup<T>(index: Map<H256, T>, hash: H256) -> HashLookupAttempt<T> {
    if index.contains_key(hash) {
        HashLookupAttempt(Some(index[hash]))
    } else {
        HashLookupAttempt(None)
    }
}

/// Whether one of the trie's leaves has this key.
pub open spec fn has_leaf(trie: PartialTrie, key: Nibbles) -> bool {
    exists|i: int| 0 <= i < leaves_of(trie).len() && (#[trigger] leaves_of(trie)[i]).0 == key
}

/// Whether the trie lists its leaves and each of their keys makes up a hash.
pub open spec fn leaf_keys_are_hashes(trie: PartialTrie) -> bool {
    &&& keys_fit(trie)
    &&& forall|i: int|
        0 <= i < leaves_of(trie).len() ==> fills_hash((#[trigger] leaves_of(trie)[i]).0)
}

/// Whether one of these storage tries has a leaf with this key.
pub open spec fn has_storage_leaf(
    storage: Map<HashedAccountAddr, PartialTrie>,
    key: Nibbles,
) -> bool {
    exists|h_addr: HashedAccountAddr| #[trigger]
        storage.contains_key(h_addr) && has_leaf(storage[h_addr], key)
}

/// Whether the keys in the tries are hashes throughout.
pub open spec fn pre_images_are_hashed(pre_state: PartialTriePreImages) -> bool {
    &&& leaf_keys_are_hashes(pre_state.state)
    &&& forall|h_addr: HashedAccountAddr| #[trigger]
        pre_state.storage@.contains_key(h_addr) ==> leaf_keys_are_hashes(
            pre_state.storage@[h_addr],
        )
}

/// For each key of the trie, what the index tells of its origin.
pub open spec fn lookups_by<T>(trie: PartialTrie, index: Map<H256, T>) -> Map<
    Nibbles,
    HashLookupAttempt<T>,
> {
    Map::new(|key: Nibbles| has_leaf(trie, key), |key: Nibbles| lookup(index, key.1))
}

/// For each key of the state trie, what the trace tells of its origin.
pub open spec fn address_lookups(state: PartialTrie, traces: Seq<TxnInfo>) -> Map<
    Nibbles,
    HashLookupAttempt<Address>,
> {
    lookups_by(state, index(known_addresses(traces)))
}

/// For each key of a storage trie, what the trace tells of its origin.
pub open spec fn slot_lookups(
    storage: Map<HashedAccountAddr, PartialTrie>,
    traces: Seq<TxnInfo>,
) -> Map<Nibbles, HashLookupAttempt<StorageAddr>> {
    Map::new(
        |key: Nibbles| has_storage_leaf(storage, key),
        |key: Nibbles| lookup(index(known_slots(traces)), key.1),
    )
}

proof fn lemma_insert_all_in_steps<T>(
    map: Map<H256, T>,
    first: Seq<(H256, T)>,
    second: Seq<(H256, T)>,
)
    ensures
        insert_all(map, first + second) == insert_all(insert_all(map, first), second),
    decreases second.len(),
{
    if second.len() == 0 {
        assert(first + second == first);
    } else {
        assert((first + second).drop_last() == first + second.drop_last());
        lemma_insert_all_in_steps(map, first, second.drop_last());
    }
}

/// The addresses that the trace mentions, by their hashes.
pub fn index_addresses(traces: &[TxnInfo]) -> (found: BTreeMap<H256, Address>)
    ensures
        found@ == index(known_addresses(traces@)),
{
    let mut found: BTreeMap<H256, Address> = BTreeMap::new();
    for t in 0..traces.len()
        invariant
            found@ == index(known_addresses(traces@.take(t as int))),
    {
        let ghost before = found@;
        let addrs = keys_in_order(&traces[t].traces);
        let ghost pairs = with_hashed_addresses(addrs@);
        for i in 0..addrs.len()
            invariant
                pairs == with_hashed_addresses(addrs@),
                found@ == insert_all(before, pairs.take(i as int)),
        {
            let hashed = hash_address(&addrs[i]);
            assert(pairs.take(i + 1).drop_last() == pairs.take(i as int));
            found.insert(hashed, addrs[i]);
        }
        proof {
            assert(pairs.take(pairs.len() as int) == pairs);
            assert(traces@.take(t + 1).drop_last() == traces@.take(t as int));
            lemma_insert_all_in_steps(
                Map::empty(),
                known_addresses(traces@.take(t as int)),
                pairs,
            );
        }
    }
    assert(traces@.take(traces@.len() as int) == traces@);
    found
}

/// Adds the slots that were read, then those that were written.
pub fn collect_slots_of_trace(trace: &TxnTrace, slots: &mut Vec<StorageAddr>)
    ensures
        final(slots)@ == old(slots)@ + slots_of_trace(*trace),
{
    match &trace.storage_read {
        Some(read) => {
            for i in 0..read.len()
                invariant
                    slots@ == old(slots)@ + read@.take(i as int),
            {
                slots.push(read[i]);
            }
            assert(read@.take(read@.len() as int) == read@);
        },
        None => {},
    }
    let ghost before = slots@;
    match &trace.storage_written {
        Some(written) => {
            let keys = keys_in_order(written);
            for i in 0..keys.len()
                invariant
                    slots@ == before + keys@.take(i as int),
            {
                slots.push(keys[i]);
            }
            assert(keys@.take(keys@.len() as int) == keys@);
        },
        None => {},
    }
}

/// The slots that the transaction reached.
fn collect_slots_of_txn(txn: &TxnInfo) -> (slots: Vec<StorageAddr>)
    ensures
        slots@ == slots_of_txn(*txn),
{
    let mut slots: Vec<StorageAddr> = Vec::new();
    let addrs = keys_in_order(&txn.traces);
    for i in 0..addrs.len()
        invariant
            addrs@.to_set() == txn.traces@.dom(),
            slots@ == slots_of_accounts(txn.traces@, addrs@.take(i as int)),
    {
        assert(addrs@.take(i + 1).drop_last() == addrs@.take(i as int));
        assert(addrs@.to_set().contains(addrs@[i as int]));
        collect_slots_of_trace(txn.traces.get(&addrs[i]).unwrap(), &mut slots);
    }
    assert(addrs@.take(addrs@.len() as int) == addrs@);
    slots
}

/// The slots that the trace mentions, by their hashes.
fn index_slots(traces: &[TxnInfo]) -> (found: BTreeMap<H256, StorageAddr>)
    ensures
        found@ == index(known_slots(traces@)),
{
    let mut found: BTreeMap<H256, StorageAddr> = BTreeMap::new();
    for t in 0..traces.len()
        invariant
            found@ == index(known_slots(traces@.take(t as int))),
    {
        let ghost before = found@;
        let slots = collect_slots_of_txn(&traces[t]);
        let ghost pairs = with_hashed_slots(slots@);
        for i in 0..slots.len()
            invariant
                pairs == with_hashed_slots(slots@),
                found@ == insert_all(before, pairs.take(i as int)),
        {
            let hashed = hash_slot(&slots[i]);
            assert(pairs.take(i + 1).drop_last() == pairs.take(i as int));
            found.insert(hashed, slots[i]);
        }
        proof {
            assert(pairs.take(pairs.len() as int) == pairs);
            assert(traces@.take(t + 1).drop_last() == traces@.take(t as int));
            lemma_insert_all_in_steps(Map::empty(), known_slots(traces@.take(t as int)), pairs);
        }
    }
    assert(traces@.take(traces@.len() as int) == traces@);
    found
}

/// Enters each key of the trie's leaves, with what the index tells of its origin.
pub fn record_leaves<T: Copy>(
    trie: &PartialTrie,
    found: &BTreeMap<H256, T>,
    lookups: &mut BTreeMap<Nibbles, HashLookupAttempt<T>>,
)
    requires
        leaf_keys_are_hashes(*trie),
    ensures
        final(lookups)@ == old(lookups)@.union_prefer_right(lookups_by(*trie, found@)),
{
    let leaves = get_leaf_vals_from_trie(trie);
    let ghost views = leaves_of(*trie);
    assert(views == leaves@.map_values(|leaf: (Nibbles, Vec<u8>)| leaf_view(leaf)));
    for i in 0..leaves.len()
        invariant
            views == leaves_of(*trie),
            views == leaves@.map_values(|leaf: (Nibbles, Vec<u8>)| leaf_view(leaf)),
            leaf_keys_are_hashes(*trie),
            lookups@ == old(lookups)@.union_prefer_right(
                Map::new(
                    |key: Nibbles| exists|j: int| 0 <= j < i && (#[trigger] views[j]).0 == key,
                    |key: Nibbles| lookup(found@, key.1),
                ),
            ),
    {
        let key = leaves[i].0;
        assert(views[i as int].0 == key);
        let hash = hash_of_nibbles(&key);
        let origin: Option<T> = match found.get(&hash) {
            Some(origin) => Some(*origin),
            None => None,
        };
        let attempt = HashLookupAttempt::from(origin);
        assert(attempt == lookup(found@, key.1));
        lookups.insert(key, attempt);
        assert(lookups@ =~= old(lookups)@.union_prefer_right(
            Map::new(
                |key: Nibbles| exists|j: int| 0 <= j < i + 1 && (#[trigger] views[j]).0 == key,
                |key: Nibbles| lookup(found@, key.1),
            ),
        ));
    }
    assert(lookups@ =~= old(lookups)@.union_prefer_right(lookups_by(*trie, found@)));
}

/// For each hashed key of the tries before the block, what the block's trace tells of its origin.
pub fn create_addr_to_hashed_addr_mapping(
    pre_state: &PartialTriePreImages,
    traces: &[TxnInfo],
) -> (mapping: ReverseHashMapping)
    requires
        pre_images_are_hashed(*pre_state),
    ensures
        mapping.hashed_addr_to_addr@ == address_lookups(pre_state.state, traces@),
        mapping.hashed_slot_to_slot@ == slot_lookups(pre_state.storage@, traces@),
{
    let known_addrs = index_addresses(traces);
    let mut hashed_addr_to_addr: BTreeMap<Nibbles, HashLookupAttempt<Address>> = BTreeMap::new();
    record_leaves(&pre_state.state, &known_addrs, &mut hashed_addr_to_addr);
    assert(hashed_addr_to_addr@ =~= address_lookups(pre_state.state, traces@));

    let known = index_slots(traces);
    let mut hashed_slot_to_slot: BTreeMap<Nibbles, HashLookupAttempt<StorageAddr>> =
        BTreeMap::new();
    let h_addrs = keys_in_order(&pre_state.storage);
    for i in 0..h_addrs.len()
        invariant
            pre_images_are_hashed(*pre_state),
            h_addrs@.to_set() == pre_state.storage@.dom(),
            hashed_slot_to_slot@ == Map::new(
                |key: Nibbles|
                    exists|j: int|
                        0 <= j < i && has_leaf(pre_state.storage@[#[trigger] h_addrs@[j]], key),
                |key: Nibbles| lookup(known@, key.1),
            ),
    {
        assert(h_addrs@.to_set().contains(h_addrs@[i as int]));
        assert(pre_state.storage@.contains_key(h_addrs@[i as int]));
        let s_trie = pre_state.storage.get(&h_addrs[i]).unwrap();
        record_leaves(s_trie, &known, &mut hashed_slot_to_slot);
        assert(hashed_slot_to_slot@ =~= Map::new(
            |key: Nibbles|
                exists|j: int|
                    0 <= j < i + 1 && has_leaf(pre_state.storage@[#[trigger] h_addrs@[j]], key),
            |key: Nibbles| lookup(known@, key.1),
        ));
    }
    proof {
        assert forall|key: Nibbles|
            hashed_slot_to_slot@.contains_key(key) == has_storage_leaf(
                pre_state.storage@,
                key,
            ) by {
            if has_storage_leaf(pre_state.storage@, key) {
                let h_addr = choose|h_addr: HashedAccountAddr| #[trigger]
                    pre_state.storage@.contains_key(h_addr) && has_leaf(
                        pre_state.storage@[h_addr],
                        key,
                    );
                assert(h_addrs@.to_set().contains(h_addr));
                let j = choose|j: int| 0 <= j < h_addrs@.len() && h_addrs@[j] == h_addr;
                assert(has_leaf(pre_state.storage@[h_addrs@[j]], key));
            }
            if hashed_slot_to_slot@.contains_key(key) {
                let j = choose|j: int|
                    0 <= j < h_addrs@.len() && has_leaf(
                        pre_state.storage@[#[trigger] h_addrs@[j]],
                        key,
                    );
                assert(h_addrs@.to_set().contains(h_addrs@[j]));
                assert(pre_state.storage@.contains_key(h_addrs@[j]));
            }
        }
        assert(hashed_slot_to_slot@ =~= slot_lookups(pre_state.storage@, traces@));
    }
    ReverseHashMapping { hashed_addr_to_addr, hashed_slot_to_slot }
}

/// An index holds the hashes of its pairs, each with an origin that was paired with it.
proof fn lemma_index<T>(pairs: Seq<(H256, T)>)
    ensures
        forall|hash: H256| #[trigger]
            index(pairs).contains_key(hash) ==> pairs.contains((hash, index(pairs)[hash])),
        forall|i: int|
            0 <= i < pairs.len() ==> index(pairs).contains_key((#[trigger] pairs[i]).0),
    decreases pairs.len(),
{
    if pairs.len() > 0 {
        let rest = pairs.drop_last();
        lemma_index(rest);
        assert forall|hash: H256| #[trigger] index(pairs).contains_key(hash) implies pairs.contains(
            (hash, index(pairs)[hash]),
        ) by {
            if hash == pairs.last().0 {
                assert(pairs[pairs.len() - 1] == (hash, index(pairs)[hash]));
            } else {
                assert(index(rest).contains_key(hash));
                let i = choose|i: int| 0 <= i < rest.len() && rest[i] == (hash, index(rest)[hash]);
                assert(pairs[i] == (hash, index(pairs)[hash]));
            }
        }
        assert forall|i: int| 0 <= i < pairs.len() implies index(pairs).contains_key(
            (#[trigger] pairs[i]).0,
        ) by {
            if i < rest.len() {
                assert(index(rest).contains_key(rest[i].0));
            }
        }
    }
}

/// The known addresses are those that the trace mentions, with their hashes.
proof fn lemma_known_addresses(traces: Seq<TxnInfo>)
    ensures
        forall|i: int|
            0 <= i < known_addresses(traces).len() ==> {
                let (hash, addr) = #[trigger] known_addresses(traces)[i];
                hash == hashed_address(addr) && addrs_used(traces).contains(addr)
            },
        forall|addr: Address| #[trigger]
            addrs_used(traces).contains(addr) ==> known_addresses(traces).contains(
                (hashed_address(addr), addr),
            ),
    decreases traces.len(),
{
    if traces.len() > 0 {
        let rest = traces.drop_last();
        let last = traces.last();
        let addrs = in_order(last.traces@.dom());
        let pairs = known_addresses(traces);
        let before = known_addresses(rest);
        lemma_known_addresses(rest);
        lemma_addresses_are_ordered();
        lemma_in_order(last.traces@.dom());
        assert forall|i: int| 0 <= i < pairs.len() implies ({
            let (hash, addr) = #[trigger] pairs[i];
            hash == hashed_address(addr) && addrs_used(traces).contains(addr)
        }) by {
            let addr = pairs[i].1;
            if i < before.len() {
                assert(before[i] == pairs[i]);
                let t = choose|t: int|
                    0 <= t < rest.len() && (#[trigger] rest[t]).traces@.contains_key(addr);
                assert(traces[t].traces@.contains_key(addr));
            } else {
                assert(pairs[i] == with_hashed_addresses(addrs)[i - before.len()]);
                assert(addrs.to_set().contains(addr));
                assert(traces[traces.len() - 1].traces@.contains_key(addr));
            }
        }
        assert forall|addr: Address| #[trigger] addrs_used(traces).contains(
            addr,
        ) implies pairs.contains((hashed_address(addr), addr)) by {
            let t = choose|t: int|
                0 <= t < traces.len() && (#[trigger] traces[t]).traces@.contains_key(addr);
            if t < rest.len() {
                assert(rest[t].traces@.contains_key(addr));
                assert(addrs_used(rest).contains(addr));
                let i = choose|i: int|
                    0 <= i < before.len() && before[i] == (hashed_address(addr), addr);
                assert(pairs[i] == before[i]);
            } else {
                assert(addrs.to_set().contains(addr));
                let i = choose|i: int| 0 <= i < addrs.len() && addrs[i] == addr;
                assert(pairs[before.len() + i] == (hashed_address(addr), addr));
            }
        }
    }
}

/// Undoing a hashed address finds an address exactly where the trace mentions one with that hash,
/// and what it finds is such an address.
pub proof fn law_address_lookup_undoes_the_hash(traces: Seq<TxnInfo>, hash: H256)
    ensures
        match lookup(index(known_addresses(traces)), hash).0 {
            Some(addr) => addrs_used(traces).contains(addr) && hashed_address(addr) == hash,
            None => forall|addr: Address| #[trigger]
                addrs_used(traces).contains(addr) ==> hashed_address(addr) != hash,
        },
{
    let pairs = known_addresses(traces);
    lemma_index(pairs);
    lemma_known_addresses(traces);
    assert forall|addr: Address| #[trigger] addrs_used(traces).contains(addr)
        && hashed_address(addr) == hash implies index(pairs).contains_key(hash) by {
        let i = choose|i: int| 0 <= i < pairs.len() && pairs[i] == (hashed_address(addr), addr);
        assert(index(pairs).contains_key(pairs[i].0));
    }
}

/// Whether the slot was read or written.
pub open spec fn trace_reaches_slot(trace: TxnTrace, slot: StorageAddr) -> bool {
    ||| trace.storage_read matches Some(read) && read@.contains(slot)
    ||| trace.storage_written matches Some(written) && written@.contains_key(slot)
}

/// Whether the transaction read or wrote the slot in some account.
pub open spec fn txn_reaches_slot(txn: TxnInfo, slot: StorageAddr) -> bool {
    exists|addr: Address| #[trigger]
        txn.traces@.contains_key(addr) && trace_reaches_slot(txn.traces@[addr], slot)
}

/// The slots that the block reads or writes in some account.
pub open spec fn slots_used(traces: Seq<TxnInfo>) -> Set<StorageAddr> {
    Set::new(
        |slot: StorageAddr|
            exists|t: int| 0 <= t < traces.len() && txn_reaches_slot(#[trigger] traces[t], slot),
    )
}

pub proof fn lemma_slots_of_trace(trace: TxnTrace, slot: StorageAddr)
    ensures
        slots_of_trace(trace).contains(slot) <==> trace_reaches_slot(trace, slot),
{
    let slots = slots_of_trace(trace);
    let read = match trace.storage_read {
        Some(read) => read@,
        None => Seq::empty(),
    };
    let written = match trace.storage_written {
        Some(written) => in_order(written@.dom()),
        None => Seq::empty(),
    };
    if let Some(written_map) = trace.storage_written {
        lemma_words_are_ordered();
        lemma_in_order(written_map@.dom());
        assert(written.to_set().contains(slot) == written_map@.contains_key(slot));
    }
    if read.contains(slot) {
        let i = choose|i: int| 0 <= i < read.len() && read[i] == slot;
        assert(slots[i] == slot);
    }
    if written.contains(slot) {
        let i = choose|i: int| 0 <= i < written.len() && written[i] == slot;
        assert(slots[read.len() + i] == slot);
    }
    if slots.contains(slot) {
        let i = choose|i: int| 0 <= i < slots.len() && slots[i] == slot;
        if i < read.len() {
            assert(read[i] == slot);
        } else {
            assert(written[i - read.len()] == slot);
        }
    }
}

proof fn lemma_slots_of_accounts(
    traces: Map<Address, TxnTrace>,
    addrs: Seq<Address>,
    slot: StorageAddr,
)
    ensures
        slots_of_accounts(traces, addrs).contains(slot) <==> exists|i: int|
            0 <= i < addrs.len() && trace_reaches_slot(traces[#[trigger] addrs[i]], slot),
    decreases addrs.len(),
{
    if addrs.len() > 0 {
        let rest = addrs.drop_last();
        let before = slots_of_accounts(traces, rest);
        let now = slots_of_trace(traces[addrs.last()]);
        let slots = slots_of_accounts(traces, addrs);
        lemma_slots_of_accounts(traces, rest, slot);
        lemma_slots_of_trace(traces[addrs.last()], slot);
        if before.contains(slot) {
            let i = choose|i: int| 0 <= i < before.len() && before[i] == slot;
            assert(slots[i] == slot);
            let j = choose|j: int|
                0 <= j < rest.len() && trace_reaches_slot(traces[#[trigger] rest[j]], slot);
            assert(trace_reaches_slot(traces[addrs[j]], slot));
        }
        if now.contains(slot) {
            let i = choose|i: int| 0 <= i < now.len() && now[i] == slot;
            assert(slots[before.len() + i] == slot);
            assert(trace_reaches_slot(traces[addrs[addrs.len() - 1]], slot));
        }
        if slots.contains(slot) {
            let i = choose|i: int| 0 <= i < slots.len() && slots[i] == slot;
            if i < before.len() {
                assert(before[i] == slot);
            } else {
                assert(now[i - before.len()] == slot);
            }
        }
        if exists|i: int|
            0 <= i < addrs.len() && trace_reaches_slot(traces[#[trigger] addrs[i]], slot) {
            let i = choose|i: int|
                0 <= i < addrs.len() && trace_reaches_slot(traces[#[trigger] addrs[i]], slot);
            if i < rest.len() {
                assert(trace_reaches_slot(traces[rest[i]], slot));
            }
        }
    }
}

proof fn lemma_slots_of_txn(txn: TxnInfo, slot: StorageAddr)
    ensures
        slots_of_txn(txn).contains(slot) <==> txn_reaches_slot(txn, slot),
{
    let addrs = in_order(txn.traces@.dom());
    lemma_addresses_are_ordered();
    lemma_in_order(txn.traces@.dom());
    lemma_slots_of_accounts(txn.traces@, addrs, slot);
    if slots_of_txn(txn).contains(slot) {
        let i = choose|i: int|
            0 <= i < addrs.len() && trace_reaches_slot(txn.traces@[#[trigger] addrs[i]], slot);
        assert(addrs.to_set().contains(addrs[i]));
        assert(txn.traces@.contains_key(addrs[i]));
    }
    if txn_reaches_slot(txn, slot) {
        let addr = choose|addr: Address| #[trigger]
            txn.traces@.contains_key(addr) && trace_reaches_slot(txn.traces@[addr], slot);
        assert(addrs.to_set().contains(addr));
        let i = choose|i: int| 0 <= i < addrs.len() && addrs[i] == addr;
        assert(trace_reaches_slot(txn.traces@[addrs[i]], slot));
    }
}

/// The known slots are those that the trace mentions, with their hashes.
proof fn lemma_known_slots(traces: Seq<TxnInfo>)
    ensures
        forall|i: int|
            0 <= i < known_slots(traces).len() ==> {
                let (hash, slot) = #[trigger] known_slots(traces)[i];
                hash == hashed_slot(slot) && slots_used(traces).contains(slot)
            },
        forall|slot: StorageAddr| #[trigger]
            slots_used(traces).contains(slot) ==> known_slots(traces).contains(
                (hashed_slot(slot), slot),
            ),
    decreases traces.len(),
{
    if traces.len() > 0 {
        let rest = traces.drop_last();
        let slots = slots_of_txn(traces.last());
        let pairs = known_slots(traces);
        let before = known_slots(rest);
        lemma_known_slots(rest);
        assert forall|i: int| 0 <= i < pairs.len() implies ({
            let (hash, slot) = #[trigger] pairs[i];
            hash == hashed_slot(slot) && slots_used(traces).contains(slot)
        }) by {
            let slot = pairs[i].1;
            if i < before.len() {
                assert(before[i] == pairs[i]);
                let t = choose|t: int|
                    0 <= t < rest.len() && txn_reaches_slot(#[trigger] rest[t], slot);
                assert(txn_reaches_slot(traces[t], slot));
            } else {
                assert(pairs[i] == with_hashed_slots(slots)[i - before.len()]);
                assert(slots[i - before.len()] == slot);
                lemma_slots_of_txn(traces.last(), slot);
                assert(txn_reaches_slot(traces[traces.len() - 1], slot));
            }
        }
        assert forall|slot: StorageAddr| #[trigger] slots_used(traces).contains(
            slot,
        ) implies pairs.contains((hashed_slot(slot), slot)) by {
            let t = choose|t: int|
                0 <= t < traces.len() && txn_reaches_slot(#[trigger] traces[t], slot);
            if t < rest.len() {
                assert(txn_reaches_slot(rest[t], slot));
                assert(slots_used(rest).contains(slot));
                let i = choose|i: int|
                    0 <= i < before.len() && before[i] == (hashed_slot(slot), slot);
                assert(pairs[i] == before[i]);
            } else {
                lemma_slots_of_txn(traces.last(), slot);
                let i = choose|i: int| 0 <= i < slots.len() && slots[i] == slot;
                assert(pairs[before.len() + i] == (hashed_slot(slot), slot));
            }
        }
    }
}

/// Undoing a hashed slot finds a slot exactly where the trace mentions one with that hash, and what
/// it finds is such a slot.
pub proof fn law_slot_lookup_undoes_the_hash(traces: Seq<TxnInfo>, hash: H256)
    ensures
        match lookup(index(known_slots(traces)), hash).0 {
            Some(slot) => slots_used(traces).contains(slot) && hashed_slot(slot) == hash,
            None => forall|slot: StorageAddr| #[trigger]
                slots_used(traces).contains(slot) ==> hashed_slot(slot) != hash,
        },
{
    let pairs = known_slots(traces);
    lemma_index(pairs);
    lemma_known_slots(traces);
    assert forall|slot: StorageAddr| #[trigger] slots_used(traces).contains(slot) && hashed_slot(
        slot,
    ) == hash implies index(pairs).contains_key(hash) by {
        let i = choose|i: int| 0 <= i < pairs.len() && pairs[i] == (hashed_slot(slot), slot);
        assert(index(pairs).contains_key(pairs[i].0));
    }
}

} // verus!
