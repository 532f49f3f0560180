//! Storage roots after a block, held against those that an upstream node tells of the same accounts.

use crate::codec::{hash_address, hashed_address};
use crate::errors::{views, TraceVerificationError, TraceVerificationErrorView};
use crate::order::{in_order, keys_in_order, lemma_addresses_are_ordered, lemma_in_order};
use crate::roots::{push_trie_root_mismatch_error_if_roots_differ, root_errors};
use crate::trace::{TxnInfo, TxnTrace};
use crate::trie::{check_keys_fit, keys_fit, root_of, trie_root, trie_view};
use crate::types::{Address, HashedStorageAddr, TrieInitialOrFinal, TrieRootHash, TrieType};
use eth_trie_utils::partial_trie::PartialTrie;
use std::collections::BTreeMap;
use vstd::prelude::*;

verus! {

/// Whether the storage root of an account with this trace is checked: slots were written.
pub open spec fn root_is_checked(trace: TxnTrace) -> bool {
    trace.storage_written matches Some(written) && !written@.is_empty()
}

/// The accounts among `addrs` whose storage root is checked.
pub open spec fn checked_among(traces: Map<Address, TxnTrace>, addrs: Seq<Address>) -> Seq<Address>
    decreases addrs.len(),
{
    if addrs.len() == 0 {
        Seq::empty()
    } else {
        let before = checked_among(traces, addrs.drop_last());
        if root_is_checked(traces[addrs.last()]) {
            before.push(addrs.last())
        } else {
            before
        }
    }
}

/// The accounts whose storage root is checked: transaction by transaction, by ascending address,
/// once for each transaction that writes to their storage.
pub open spec fn addresses_checked(traces: Seq<TxnInfo>) -> Seq<Address>
    decreases traces.len(),
{
    if traces.len() == 0 {
        Seq::empty()
    } else {
        addresses_checked(traces.drop_last()) + checked_among(
            traces.last().traces@,
            in_order(traces.last().traces@.dom()),
        )
    }
}

/// Whether each of these accounts has a storage trie, and that trie a root.
pub open spec fn have_storage_roots(
    s_tries: Map<HashedStorageAddr, PartialTrie>,
    addrs: Seq<Address>,
) -> bool {
    forall|i: int|
        0 <= i < addrs.len() ==> s_tries.contains_key(hashed_address(#[trigger] addrs[i]))
            && keys_fit(s_tries[hashed_address(addrs[i])])
}

/// The roots of the storage tries of these accounts.
pub open spec fn storage_roots_of(
    s_tries: Map<HashedStorageAddr, PartialTrie>,
    addrs: Seq<Address>,
) -> Seq<TrieRootHash> {
    addrs.map_values(|addr: Address| root_of(trie_view(s_tries[hashed_address(addr)])))
}

/// What is reported of the roots, pair by pair, as far as there is one of each.
pub open spec fn storage_root_errors(ours: Seq<TrieRootHash>, upstream: Seq<TrieRootHash>) -> Seq<
    TraceVerificationErrorView,
>
    decreases ours.len(),
{
    if ours.len() == 0 {
        Seq::empty()
    } else {
        let before = storage_root_errors(ours.drop_last(), upstream);
        if ours.len() <= upstream.len() {
            before + root_errors(
                ours.last(),
                upstream[ours.len() - 1],
                TrieInitialOrFinal::Final,
                TrieType::Storage,
            )
        } else {
            before
        }
    }
}

/// The accounts whose storage root is checked, in the order in which that happens.
pub fn get_addresses_to_check(raw_traces: &[TxnInfo]) -> (addrs: Vec<Address>)
    ensures
        addrs@ == addresses_checked(raw_traces@),
{
    let mut checked: Vec<Address> = Vec::new();
    for t in 0..raw_traces.len()
        invariant
            checked@ == addresses_checked(raw_traces@.take(t as int)),
    {
        let traces = &raw_traces[t].traces;
        let addrs = keys_in_order(traces);
        let ghost before = checked@;
        for i in 0..addrs.len()
            invariant
                addrs@.to_set() == traces@.dom(),
                checked@ == before + checked_among(traces@, addrs@.take(i as int)),
        {
            assert(addrs@.take(i + 1).drop_last() == addrs@.take(i as int));
            assert(addrs@.to_set().contains(addrs@[i as int]));
            match &traces.get(&addrs[i]).unwrap().storage_written {
                Some(written) => {
                    if !written.is_empty() {
                        checked.push(addrs[i]);
                    }
                },
                None => {},
            }
        }
        proof {
            assert(addrs@.take(addrs@.len() as int) == addrs@);
            assert(raw_traces@.take(t + 1).drop_last() == raw_traces@.take(t as int));
        }
    }
    assert(raw_traces@.take(raw_traces@.len() as int) == raw_traces@);
    checked
}

/// The roots of the storage tries of these accounts; `None` where one of them has none.
pub fn get_our_storage_roots(
    s_tries: &BTreeMap<HashedStorageAddr, PartialTrie>,
    addrs: &Vec<Address>,
) -> (roots: Option<Vec<TrieRootHash>>)
    ensures
        match roots {
            Some(roots) => have_storage_roots(s_tries@, addrs@) && roots@ == storage_roots_of(
                s_tries@,
                addrs@,
            ),
            None => !have_storage_roots(s_tries@, addrs@),
        },
{
    let mut roots: Vec<TrieRootHash> = Vec::new();
    for i in 0..addrs.len()
        invariant
            have_storage_roots(s_tries@, addrs@.take(i as int)),
            roots@ == storage_roots_of(s_tries@, addrs@.take(i as int)),
    {
        let h_addr = hash_address(&addrs[i]);
        assert(h_addr == hashed_address(addrs@[i as int]));
        match s_tries.get(&h_addr) {
            Some(s_trie) => {
                if !check_keys_fit(s_trie) {
                    return None;
                }
                roots.push(trie_root(s_trie));
                assert(addrs@.take(i + 1) == addrs@.take(i as int).push(addrs@[i as int]));
            },
            None => {
                return None;
            },
        }
    }
    assert(addrs@.take(addrs@.len() as int) == addrs@);
    Some(roots)
}

/// Reports the storage roots that are not those of the upstream node, pair by pair.
pub fn report_storage_roots_that_differ(
    our_s_roots: &Vec<TrieRootHash>,
    upstream_s_roots: &Vec<TrieRootHash>,
    err_buf: &mut Vec<TraceVerificationError>,
)
    ensures
        views(final(err_buf)@) == views(old(err_buf)@) + storage_root_errors(
            our_s_roots@,
            upstream_s_roots@,
        ),
{
    for i in 0..our_s_roots.len()
        invariant
            views(err_buf@) == views(old(err_buf)@) + storage_root_errors(
                our_s_roots@.take(i as int),
                upstream_s_roots@,
            ),
    {
        assert(our_s_roots@.take(i + 1).drop_last() == our_s_roots@.take(i as int));
        if i < upstream_s_roots.len() {
            push_trie_root_mismatch_error_if_roots_differ(
                &our_s_roots[i],
                &upstream_s_roots[i],
                TrieInitialOrFinal::Final,
                TrieType::Storage,
                err_buf,
            );
        }
    }
    assert(our_s_roots@.take(our_s_roots@.len() as int) == our_s_roots@);
}

/// Reports the accounts with written storage whose storage root after the block is not the one that
/// the upstream node tells. The upstream roots are those of the accounts to check, in their order.
/// Only accounts that the trace mentions can be checked: the tries know no address but by its hash.
pub fn verify_all_upstream_storage_roots_match_our_storage_roots(
    raw_traces: &[TxnInfo],
    s_tries: &BTreeMap<HashedStorageAddr, PartialTrie>,
    upstream_s_roots: &Vec<TrieRootHash>,
    err_buf: &mut Vec<TraceVerificationError>,
)
    requires
        have_storage_roots(s_tries@, addresses_checked(raw_traces@)),
    ensures
        views(final(err_buf)@) == views(old(err_buf)@) + storage_root_errors(
            storage_roots_of(s_tries@, addresses_checked(raw_traces@)),
            upstream_s_roots@,
        ),
{
    try_verify_all_upstream_storage_roots(raw_traces, s_tries, upstream_s_roots, err_buf);
}

/// Makes the check of the storage roots where every account to check has one, and tells whether that
/// was so; nothing is reported where it was not.
pub fn try_verify_all_upstream_storage_roots(
    raw_traces: &[TxnInfo],
    s_tries: &BTreeMap<HashedStorageAddr, PartialTrie>,
    upstream_s_roots: &Vec<TrieRootHash>,
    err_buf: &mut Vec<TraceVerificationError>,
) -> (checked: bool)
    ensures
        checked == have_storage_roots(s_tries@, addresses_checked(raw_traces@)),
        views(final(err_buf)@) == if checked {
            views(old(err_buf)@) + storage_root_errors(
                storage_roots_of(s_tries@, addresses_checked(raw_traces@)),
                upstream_s_roots@,
            )
        } else {
            views(old(err_buf)@)
        },
{
    let addrs = get_addresses_to_check(raw_traces);
    match get_our_storage_roots(s_tries, &addrs) {
        Some(our_s_roots) => {
            report_storage_roots_that_differ(&our_s_roots, upstream_s_roots, err_buf);
            true
        },
        None => false,
    }
}

proof fn lemma_checked_among(traces: Map<Address, TxnTrace>, addrs: Seq<Address>, addr: Address)
    ensures
        checked_among(traces, addrs).contains(addr) <==> addrs.contains(addr) && root_is_checked(
            traces[addr],
        ),
    decreases addrs.len(),
{
    if addrs.len() > 0 {
        let rest = addrs.drop_last();
        let before = checked_among(traces, rest);
        let checked = checked_among(traces, addrs);
        lemma_checked_among(traces, rest, addr);
        if before.contains(addr) {
            let i = choose|i: int| 0 <= i < before.len() && before[i] == addr;
            assert(checked[i] == addr);
        }
        if rest.contains(addr) {
            let i = choose|i: int| 0 <= i < rest.len() && rest[i] == addr;
            assert(addrs[i] == addr);
        }
        if addrs.contains(addr) {
            let i = choose|i: int| 0 <= i < addrs.len() && addrs[i] == addr;
            if i < rest.len() {
                assert(rest[i] == addr);
            } else if root_is_checked(traces[addr]) {
                assert(checked[checked.len() - 1] == addr);
            }
        }
        if checked.contains(addr) {
            let i = choose|i: int| 0 <= i < checked.len() && checked[i] == addr;
            if i < before.len() {
                assert(before[i] == addr);
            } else {
                assert(addrs[addrs.len() - 1] == addr);
            }
        }
    }
}

/// An account is checked exactly where some transaction of the trace writes to its storage.
pub proof fn law_accounts_with_written_storage_are_checked(traces: Seq<TxnInfo>, addr: Address)
    ensures
        addresses_checked(traces).contains(addr) <==> exists|t: int|
            0 <= t < traces.len() && (#[trigger] traces[t]).traces@.contains_key(addr)
                && root_is_checked(traces[t].traces@[addr]),
    decreases traces.len(),
{
    if traces.len() > 0 {
        let rest = traces.drop_last();
        let last = traces.last().traces@;
        let addrs = in_order(last.dom());
        let before = addresses_checked(rest);
        let now = checked_among(last, addrs);
        let checked = addresses_checked(traces);
        law_accounts_with_written_storage_are_checked(rest, addr);
        lemma_addresses_are_ordered();
        lemma_in_order(last.dom());
        lemma_checked_among(last, addrs, addr);
        assert(addrs.to_set().contains(addr) == last.contains_key(addr));
        if before.contains(addr) {
            let i = choose|i: int| 0 <= i < before.len() && before[i] == addr;
            assert(checked[i] == addr);
            let t = choose|t: int|
                0 <= t < rest.len() && (#[trigger] rest[t]).traces@.contains_key(addr)
                    && root_is_checked(rest[t].traces@[addr]);
            assert(traces[t] == rest[t]);
        }
        if now.contains(addr) {
            let i = choose|i: int| 0 <= i < now.len() && now[i] == addr;
            assert(checked[before.len() + i] == addr);
            assert(traces[traces.len() - 1].traces@.contains_key(addr));
        }
        if checked.contains(addr) {
            let i = choose|i: int| 0 <= i < checked.len() && checked[i] == addr;
            if i < before.len() {
                assert(before[i] == addr);
            } else {
                assert(now[i - before.len()] == addr);
            }
        }
        if exists|t: int|
            0 <= t < traces.len() && (#[trigger] traces[t]).traces@.contains_key(addr)
                && root_is_checked(traces[t].traces@[addr]) {
            let t = choose|t: int|
                0 <= t < traces.len() && (#[trigger] traces[t]).traces@.contains_key(addr)
                    && root_is_checked(traces[t].traces@[addr]);
            if t < rest.len() {
                assert(rest[t] == traces[t]);
            }
        }
    }
}

/// With an upstream root for every local one, nothing is reported exactly where all of them are the
/// same, and what is reported are roots that differ.
pub proof fn law_storage_roots_are_reported_where_they_differ(
    ours: Seq<TrieRootHash>,
    upstream: Seq<TrieRootHash>,
)
    requires
        ours.len() <= upstream.len(),
    ensures
        storage_root_errors(ours, upstream).len() == 0 <==> ours.is_prefix_of(upstream),
        storage_root_errors(ours, upstream).len() <= ours.len(),
        forall|e: int|
            0 <= e < storage_root_errors(ours, upstream).len() ==> exists|i: int|
                0 <= i < ours.len() && ours[i] != upstream[i] && #[trigger] storage_root_errors(
                    ours,
                    upstream,
                )[e] == TraceVerificationErrorView::DecoderTrieRootMismatch(
                    TrieType::Storage,
                    TrieInitialOrFinal::Final,
                    #[trigger] ours[i],
                    upstream[i],
                ),
    decreases ours.len(),
{
    if ours.len() > 0 {
        let rest = ours.drop_last();
        let last = ours.len() - 1;
        let errs = storage_root_errors(ours, upstream);
        let before = storage_root_errors(rest, upstream);
        law_storage_roots_are_reported_where_they_differ(rest, upstream);
        assert(ours == rest.push(ours[last]));
        assert(rest.is_prefix_of(upstream) && ours[last] == upstream[last]
            <==> ours.is_prefix_of(upstream)) by {
            if ours.is_prefix_of(upstream) {
                assert(ours[last] == upstream.subrange(0, ours.len() as int)[last]);
                assert(rest =~= upstream.subrange(0, rest.len() as int));
            }
            if rest.is_prefix_of(upstream) && ours[last] == upstream[last] {
                assert forall|i: int| 0 <= i < ours.len() implies ours[i] == upstream[i] by {
                    if i < last {
                        assert(rest[i] == upstream.subrange(0, rest.len() as int)[i]);
                    }
                }
                assert(ours =~= upstream.subrange(0, ours.len() as int));
            }
        }
        assert forall|e: int| 0 <= e < errs.len() implies exists|i: int|
            0 <= i < ours.len() && ours[i] != upstream[i] && #[trigger] errs[e]
                == TraceVerificationErrorView::DecoderTrieRootMismatch(
                TrieType::Storage,
                TrieInitialOrFinal::Final,
                #[trigger] ours[i],
                upstream[i],
            ) by {
            if e < before.len() {
                assert(errs[e] == before[e]);
                let i = choose|i: int|
                    0 <= i < rest.len() && rest[i] != upstream[i] && before[e]
                        == TraceVerificationErrorView::DecoderTrieRootMismatch(
                        TrieType::Storage,
                        TrieInitialOrFinal::Final,
                        #[trigger] rest[i],
                        upstream[i],
                    );
                assert(ours[i] == rest[i]);
            } else {
                assert(ours[last] != upstream[last]);
            }
        }
    } else {
        assert(ours =~= upstream.subrange(0, 0));
    }
}

} // verus!
