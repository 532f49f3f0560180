//! The keys of a map in ascending order.

use std::collections::BTreeMap;
use std::collections::BTreeSet;
use vstd::laws_cmp::obeys_cmp;
use vstd::prelude::*;
use vstd::std_specs::btree::increasing_seq;
use vstd::std_specs::cmp::OrdSpec;

verus! {

/// Whether `keys` lists exactly the members of `set`, in ascending order.
pub open spec fn lists_in_order<K>(keys: Seq<K>, set: Set<K>) -> bool {
    increasing_seq(keys) && keys.to_set() == set
}

/// The members of `set` in ascending order.
pub open spec fn in_order<K>(set: Set<K>) -> Seq<K> {
    choose|keys: Seq<K>| lists_in_order(keys, set)
}

proof fn lemma_less_than_is_an_order<K: Ord>()
    requires
        obeys_cmp::<K>(),
    ensures
        forall|x: K, y: K| #[trigger] x.cmp_spec(&y) is Less ==> !(y.cmp_spec(&x) is Less),
{
    reveal(vstd::laws_cmp::obeys_partial_cmp_spec_properties);
    reveal(vstd::laws_cmp::obeys_cmp_ord);
}

/// An increasing sequence loses exactly its last member when its last item is dropped.
proof fn lemma_drop_last_in_order<K: Ord>(keys: Seq<K>, set: Set<K>)
    requires
        obeys_cmp::<K>(),
        lists_in_order(keys, set),
        keys.len() > 0,
    ensures
        lists_in_order(keys.drop_last(), set.remove(keys.last())),
{
    lemma_less_than_is_an_order::<K>();
    assert(keys.drop_last().to_set() =~= set.remove(keys.last())) by {
        assert forall|k: K| set.remove(keys.last()).contains(k) implies keys.drop_last().contains(
            k,
        ) by {
            assert(keys.to_set().contains(k));
            let i = choose|i: int| 0 <= i < keys.len() && keys[i] == k;
            assert(keys.drop_last()[i] == k);
        }
        assert forall|k: K| #[trigger] keys.drop_last().contains(k) implies set.remove(
            keys.last(),
        ).contains(k) by {
            let i = choose|i: int| 0 <= i < keys.drop_last().len() && keys.drop_last()[i] == k;
            assert(keys[i] == k);
            assert(keys.contains(k));
            assert(keys[i].cmp_spec(&keys[keys.len() - 1]) is Less);
        }
    }
}

/// There is one way to list a set in ascending order.
proof fn lemma_order_is_unique<K: Ord>(a: Seq<K>, b: Seq<K>, set: Set<K>)
    requires
        obeys_cmp::<K>(),
        lists_in_order(a, set),
        lists_in_order(b, set),
    ensures
        a == b,
    decreases a.len(),
{
    if a.len() == 0 {
        if b.len() > 0 {
            assert(b.to_set().contains(b[0]));
        }
    } else {
        lemma_less_than_is_an_order::<K>();
        assert(a.to_set().contains(a.last()));
        let j = choose|j: int| 0 <= j < b.len() && b[j] == a.last();
        assert(b.to_set().contains(b.last()));
        let i = choose|i: int| 0 <= i < a.len() && a[i] == b.last();
        if j < b.len() - 1 {
            assert(b[j].cmp_spec(&b[b.len() - 1]) is Less);
            if i < a.len() - 1 {
                assert(a[i].cmp_spec(&a[a.len() - 1]) is Less);
            }
            assert(false);
        }
        lemma_drop_last_in_order(a, set);
        lemma_drop_last_in_order(b, set);
        lemma_order_is_unique(a.drop_last(), b.drop_last(), set.remove(a.last()));
        assert(a == a.drop_last().push(a.last()));
        assert(b == b.drop_last().push(b.last()));
    }
}

/// Whether any two different keys are one before the other.
pub open spec fn distinct_keys_are_ordered<K: Ord>() -> bool {
    forall|x: K, y: K|
        x != y ==> #[trigger] x.cmp_spec(&y) is Less || #[trigger] y.cmp_spec(&x) is Less
}

/// A set that is listed in order is still listed in order once a key has been added.
proof fn lemma_insert_in_order<K: Ord>(keys: Seq<K>, set: Set<K>, key: K) -> (more: Seq<K>)
    requires
        obeys_cmp::<K>(),
        distinct_keys_are_ordered::<K>(),
        lists_in_order(keys, set),
        !set.contains(key),
    ensures
        lists_in_order(more, set.insert(key)),
    decreases keys.len(),
{
    reveal(vstd::laws_cmp::obeys_partial_cmp_spec_properties);
    reveal(vstd::laws_cmp::obeys_cmp_ord);
    if keys.len() == 0 {
        let more = seq![key];
        assert(more.to_set() =~= set.insert(key)) by {
            assert(more.contains(key)) by {
                assert(more[0] == key);
            }
            assert forall|k: K| set.contains(k) implies false by {
                assert(keys.to_set().contains(k));
            }
        }
        more
    } else {
        let last = keys.last();
        assert(keys.to_set().contains(last));
        assert(last.cmp_spec(&key) is Less || key.cmp_spec(&last) is Less);
        let (front, end) = if last.cmp_spec(&key) is Less {
            (keys, key)
        } else {
            lemma_drop_last_in_order(keys, set);
            (lemma_insert_in_order(keys.drop_last(), set.remove(last), key), last)
        };
        let more = front.push(end);
        assert forall|i: int| 0 <= i < front.len() implies (#[trigger] front[i]).cmp_spec(
            &end,
        ) is Less by {
            if last.cmp_spec(&key) is Less {
                if i < keys.len() - 1 {
                    assert(keys[i].cmp_spec(&keys[keys.len() - 1]) is Less);
                }
            } else {
                assert(front.to_set().contains(front[i]));
                if front[i] != key {
                    assert(keys.to_set().contains(front[i]));
                    let j = choose|j: int| 0 <= j < keys.len() && keys[j] == front[i];
                    assert(keys[j].cmp_spec(&keys[keys.len() - 1]) is Less);
                }
            }
        }
        assert(increasing_seq(more));
        assert(more.to_set() =~= set.insert(key)) by {
            assert(more[more.len() - 1] == end);
            assert forall|k: K| set.insert(key).contains(k) implies more.contains(k) by {
                if k != end {
                    assert(front.to_set().contains(k));
                    let j = choose|j: int| 0 <= j < front.len() && front[j] == k;
                    assert(more[j] == k);
                }
            }
            assert forall|k: K| #[trigger] more.contains(k) implies set.insert(key).contains(k) by {
                let j = choose|j: int| 0 <= j < more.len() && more[j] == k;
                if j < front.len() {
                    assert(front.contains(k)) by {
                        assert(front[j] == k);
                    }
                    assert(front.to_set().contains(k));
                }
            }
        }
        more
    }
}

/// Every finite set can be listed in order.
pub proof fn lemma_in_order<K: Ord>(set: Set<K>)
    requires
        obeys_cmp::<K>(),
        distinct_keys_are_ordered::<K>(),
        set.finite(),
    ensures
        lists_in_order(in_order(set), set),
    decreases set.len(),
{
    if set.len() == 0 {
        let keys = Seq::<K>::empty();
        assert(keys.to_set() =~= set);
        assert(lists_in_order(keys, set));
    } else {
        let key = set.choose();
        let rest = set.remove(key);
        lemma_in_order(rest);
        let keys = lemma_insert_in_order(in_order(rest), rest, key);
        assert(rest.insert(key) =~= set);
        assert(lists_in_order(keys, set));
    }
}

/// Any two different 256-bit words are one before the other.
pub proof fn lemma_words_are_ordered()
    ensures
        distinct_keys_are_ordered::<(u128, u128)>(),
{
}

/// Any two different addresses are one before the other.
pub proof fn lemma_addresses_are_ordered()
    ensures
        distinct_keys_are_ordered::<(u32, u128)>(),
{
}

/// Any two different trie keys are one before the other.
pub proof fn lemma_keys_are_ordered()
    ensures
        distinct_keys_are_ordered::<(usize, (u128, u128))>(),
{
}

/// Whether address `a` comes before address `b`.
pub open spec fn address_before(a: (u32, u128), b: (u32, u128)) -> bool {
    a.0 < b.0 || (a.0 == b.0 && a.1 < b.1)
}

/// In an ordered list of addresses, earlier ones come before later ones.
pub proof fn lemma_addresses_increase(addrs: Seq<(u32, u128)>)
    requires
        increasing_seq(addrs),
    ensures
        forall|i: int, j: int|
            0 <= i < j < addrs.len() ==> address_before(#[trigger] addrs[i], #[trigger] addrs[j]),
{
    assert forall|i: int, j: int| 0 <= i < j < addrs.len() implies address_before(
        #[trigger] addrs[i],
        #[trigger] addrs[j],
    ) by {
        assert(addrs[i].cmp_spec(&addrs[j]) is Less);
    }
}

/// A sequence is its own longest prefix.
proof fn lemma_take_all<T>(items: Seq<T>)
    ensures
        items.take(items.len() as int) == items,
{
}

/// The keys of the map in ascending order.
pub fn keys_in_order<K: Ord + Copy, V>(map: &BTreeMap<K, V>) -> (keys: Vec<K>)
    requires
        obeys_cmp::<K>(),
    ensures
        keys@ == in_order(map@.dom()),
        lists_in_order(keys@, map@.dom()),
{
    assert(vstd::std_specs::btree::key_obeys_cmp_spec::<K>());
    let mut keys: Vec<K> = Vec::new();
    let entries = map.iter();
    let ghost pairs = vstd::std_specs::iter::IteratorSpec::remaining(&entries);
    for entry in it: entries
        invariant
            it.seq() == pairs,
            keys@ == it.seq().take(it.index()).map_values(|kv: (&K, &V)| *kv.0),
    {
        keys.push(*entry.0);
    }
    proof {
        lemma_take_all(pairs);
        assert(keys@ == pairs.map_values(|kv: (&K, &V)| *kv.0));
        assert(increasing_seq(keys@));
        assert(keys@.to_set() =~= map@.dom()) by {
            assert forall|k: K| map@.dom().contains(k) implies keys@.contains(k) by {
                let i = choose|i: int| 0 <= i < pairs.len() && pairs[i] == (&k, &map@[k]);
                assert(keys@[i] == k);
            }
            assert forall|k: K| #[trigger] keys@.contains(k) implies map@.dom().contains(k) by {
                let i = choose|i: int| 0 <= i < keys@.len() && keys@[i] == k;
                assert(map@.contains_key(*pairs[i].0));
            }
        }
        assert(lists_in_order(keys@, map@.dom()));
        lemma_order_is_unique(keys@, in_order(map@.dom()), map@.dom());
    }
    keys
}

/// The members of the set in ascending order.
pub fn members_in_order<K: Ord + Copy>(set: &BTreeSet<K>) -> (members: Vec<K>)
    requires
        obeys_cmp::<K>(),
    ensures
        members@ == in_order(set@),
        lists_in_order(members@, set@),
{
    assert(vstd::std_specs::btree::key_obeys_cmp_spec::<K>());
    let mut members: Vec<K> = Vec::new();
    let entries = set.iter();
    let ghost listed = vstd::std_specs::iter::IteratorSpec::remaining(&entries);
    for member in it: entries
        invariant
            it.seq() == listed,
            members@ == it.seq().take(it.index()).map_values(|k: &K| *k),
    {
        members.push(*member);
    }
    proof {
        lemma_take_all(listed);
        assert(members@ == listed.unref());
        assert(obeys_cmp::<&K>());
        assert forall|i: int, j: int| 0 <= i < j < members@.len() implies members@[i].cmp_spec(
            &members@[j],
        ) is Less by {
            assert(OrdSpec::cmp_spec(&listed[i], &listed[j]) is Less);
        }
        assert(increasing_seq(members@));
        assert(lists_in_order(members@, set@));
        lemma_order_is_unique(members@, in_order(set@), set@);
    }
    members
}

/// Adds the keys of the map to the set.
pub fn insert_keys<K: Ord + Copy, V>(set: &mut BTreeSet<K>, map: &BTreeMap<K, V>)
    requires
        obeys_cmp::<K>(),
    ensures
        final(set)@ == old(set)@.union(map@.dom()),
{
    let keys = keys_in_order(map);
    for i in 0..keys.len()
        invariant
            obeys_cmp::<K>(),
            forall|k: K| #[trigger]
                set@.contains(k) <==> old(set)@.contains(k) || exists|j: int|
                    0 <= j < i && keys@[j] == k,
    {
        set.insert(keys[i]);
    }
    assert(set@ =~= old(set)@.union(keys@.to_set()));
}

} // verus!
