//! The checks against an upstream node, as a machine that asks for one thing after another.

use crate::codec::hashed_address;
use crate::errors::{append_errors, views, TraceVerificationError, TraceVerificationErrorView};
use crate::final_accounts::{
    final_account_agrees, final_account_errors, final_accounts_agree, final_accounts_are_readable,
    find_accounts_that_differ, law_agreeing_accounts_pass,
};
use crate::order::{
    address_before, in_order, lemma_addresses_are_ordered, lemma_addresses_increase, lemma_in_order,
    members_in_order,
};
use crate::roots::{
    initial_roots, initial_tries_fit, law_roots_are_reported_where_they_differ, previous_block,
    roots_errors, some_roots_differ, verify_that_initial_tries_are_correct,
    verify_trie_roots_match_local, TxnProofGenIR,
};
use crate::storage_roots::{
    addresses_checked, have_storage_roots, law_storage_roots_are_reported_where_they_differ,
    storage_root_errors, storage_roots_of,
};
use crate::trace::{addrs_used, get_all_unique_addrs_used_in_trace, TxnInfo};
use crate::trie::check_keys_fit;
use crate::txn_state::{
    first_mismatch_is_reported, law_at_most_one_mismatch_is_reported, readable_to_first_mismatch,
    try_find_and_report_upstream_txn_states, PartialTrieState, TxnStateDiff,
};
use crate::types::{
    copy_items, AccountRlp, Address, BlockHeight, TrieInitialOrFinal, TrieRootHash,
    TrieRoots, TxnIdx, H256,
};
use vstd::prelude::*;

verus! {

/// What an upstream node tells of a block.
pub struct UpstreamBlock {
    /// The roots of the tries after the block.
    pub roots: TrieRoots,
    /// The hashes of its transactions, in their order.
    pub txn_hashes: Vec<H256>,
}

/// How far the checks against an upstream node have come.
pub enum RpcState {
    /// The block at this height has to be fetched.
    AwaitBlock(BlockHeight),
    /// The roots of the block at this height differ; the block before it has to be fetched.
    AwaitPreviousBlock(BlockHeight, UpstreamBlock),
    /// The transactions of the block at this height have to be replayed.
    AwaitReplays(BlockHeight, Vec<H256>),
    /// The accounts that the trace uses have to be fetched, as they are at this height.
    AwaitAccounts(BlockHeight),
    /// Nothing is left to do; these are the accounts that were fetched.
    Done(Vec<(Address, AccountRlp)>),
}

/// What is asked of an upstream node.
pub enum RpcRequest {
    /// The block at this height.
    Block(BlockHeight),
    /// For each of these transactions, the accounts that it changed.
    Replays(Vec<H256>),
    /// Each of these accounts, as it is at this height.
    Accounts(Vec<Address>, BlockHeight),
}

/// What an upstream node answers.
pub enum RpcReply {
    Block(UpstreamBlock),
    Replays(Vec<TxnStateDiff>),
    Accounts(Vec<AccountRlp>),
}

/// Whether the checks can be in this state: there is a block before the one whose roots differ.
pub open spec fn is_valid(state: RpcState) -> bool {
    state matches RpcState::AwaitPreviousBlock(b_height, _) ==> b_height > 0
}

/// Whether `request` is what has to be asked next; nothing is asked where `None` is.
pub open spec fn is_asked_next(
    state: RpcState,
    raw_traces: Seq<TxnInfo>,
    request: Option<RpcRequest>,
) -> bool {
    match state {
        RpcState::AwaitBlock(b_height) => request == Some(RpcRequest::Block(b_height)),
        RpcState::AwaitPreviousBlock(b_height, _) => request == if b_height == 0 {
            None
        } else {
            Some(RpcRequest::Block((b_height - 1) as BlockHeight))
        },
        RpcState::AwaitReplays(_, txn_hashes) => {
            &&& request matches Some(RpcRequest::Replays(asked))
            &&& asked@ == txn_hashes@
        },
        RpcState::AwaitAccounts(b_height) => {
            &&& request matches Some(RpcRequest::Accounts(addrs, asked_height))
            &&& addrs@ == in_order(addrs_used(raw_traces))
            &&& asked_height == b_height
        },
        RpcState::Done(_) => request is None,
    }
}

/// Whether the checks can go on from `state` with `reply`: it answers what was asked, in full, and
/// what it has to be held against can be read.
pub open spec fn can_step(
    state: RpcState,
    reply: RpcReply,
    ir: Seq<TxnProofGenIR>,
    trie_state_after_each_txn: Seq<PartialTrieState>,
    raw_traces: Seq<TxnInfo>,
) -> bool {
    &&& ir.len() > 0
    &&& match (state, reply) {
        (RpcState::AwaitBlock(_), RpcReply::Block(_)) => true,
        (RpcState::AwaitPreviousBlock(_, _), RpcReply::Block(_)) => initial_tries_fit(ir[0]),
        (RpcState::AwaitReplays(_, txn_hashes), RpcReply::Replays(txn_diffs)) => {
            &&& txn_hashes@.len() == ir.len()
            &&& txn_diffs@.len() == txn_hashes@.len()
            &&& readable_to_first_mismatch(txn_diffs@, trie_state_after_each_txn)
        },
        (RpcState::AwaitAccounts(_), RpcReply::Accounts(accounts)) => {
            &&& accounts@.len() == in_order(addrs_used(raw_traces)).len()
            &&& trie_state_after_each_txn.len() > 0 ==> final_accounts_are_readable(
                trie_state_after_each_txn.last(),
                paired(raw_traces, accounts@),
            )
        },
        _ => false,
    }
}

/// The addresses that the trace uses, in ascending order, each with its account.
pub open spec fn paired(traces: Seq<TxnInfo>, accounts: Seq<AccountRlp>) -> Seq<
    (Address, AccountRlp),
> {
    Seq::new(accounts.len(), |i: int| (in_order(addrs_used(traces))[i], accounts[i]))
}

/// What is reported of the accounts that an upstream node tells: where they are not those after the
/// last transaction. Without a local state there is nothing to hold them against.
pub open spec fn reported_of_accounts(
    traces: Seq<TxnInfo>,
    trie_state_after_each_txn: Seq<PartialTrieState>,
    accounts: Seq<AccountRlp>,
) -> Seq<TraceVerificationErrorView> {
    if trie_state_after_each_txn.len() == 0 {
        Seq::empty()
    } else {
        final_account_errors(
            trie_state_after_each_txn.last(),
            (trie_state_after_each_txn.len() - 1) as TxnIdx,
            paired(traces, accounts),
        )
    }
}

/// Whether the accounts that an upstream node tells are those after the last transaction, as far as
/// there is a local state to hold them against.
pub open spec fn accounts_agree(
    traces: Seq<TxnInfo>,
    trie_state_after_each_txn: Seq<PartialTrieState>,
    accounts: Seq<AccountRlp>,
) -> bool {
    trie_state_after_each_txn.len() > 0 ==> final_accounts_agree(
        trie_state_after_each_txn.last(),
        paired(traces, accounts),
    )
}

/// Whether `next` is the state that follows.
pub open spec fn steps_to(
    state: RpcState,
    reply: RpcReply,
    ir: Seq<TxnProofGenIR>,
    raw_traces: Seq<TxnInfo>,
    next: RpcState,
) -> bool {
    match (state, reply) {
        (RpcState::AwaitBlock(b_height), RpcReply::Block(block)) => next == if
        ir.last().trie_roots_after == block.roots {
            RpcState::AwaitAccounts(b_height)
        } else if b_height == 0 {
            RpcState::AwaitReplays(b_height, block.txn_hashes)
        } else {
            RpcState::AwaitPreviousBlock(b_height, block)
        },
        (RpcState::AwaitPreviousBlock(b_height, block), RpcReply::Block(_)) => next
            == RpcState::AwaitReplays(b_height, block.txn_hashes),
        (RpcState::AwaitReplays(b_height, _), RpcReply::Replays(_)) => next
            == RpcState::AwaitAccounts(b_height),
        (RpcState::AwaitAccounts(_), RpcReply::Accounts(accounts)) => {
            &&& next matches RpcState::Done(fetched)
            &&& fetched@ == paired(raw_traces, accounts@)
        },
        _ => false,
    }
}

/// Whether the step reports what it has to: `before` and `after` are everything that has been
/// reported before and after it.
pub open spec fn step_reports(
    state: RpcState,
    reply: RpcReply,
    ir: Seq<TxnProofGenIR>,
    trie_state_after_each_txn: Seq<PartialTrieState>,
    raw_traces: Seq<TxnInfo>,
    before: Seq<TraceVerificationErrorView>,
    after: Seq<TraceVerificationErrorView>,
) -> bool {
    let local = ir.last().trie_roots_after;
    match (state, reply) {
        (RpcState::AwaitBlock(b_height), RpcReply::Block(block)) => after == if b_height == 0 {
            before + roots_errors(local, block.roots, TrieInitialOrFinal::Final)
        } else {
            before
        },
        (RpcState::AwaitPreviousBlock(_, block), RpcReply::Block(previous)) => after == before
            + roots_errors(initial_roots(ir[0]), previous.roots, TrieInitialOrFinal::Initial)
            + roots_errors(local, block.roots, TrieInitialOrFinal::Final),
        (
            RpcState::AwaitReplays(_, _),
            RpcReply::Replays(txn_diffs),
        ) => first_mismatch_is_reported(txn_diffs@, trie_state_after_each_txn, before, after),
        (RpcState::AwaitAccounts(_), RpcReply::Accounts(accounts)) => after == before
            + reported_of_accounts(raw_traces, trie_state_after_each_txn, accounts@),
        _ => after == before,
    }
}

/// The number of answers that are still needed at most.
pub open spec fn steps_left(state: RpcState) -> nat {
    match state {
        RpcState::AwaitBlock(_) => 4,
        RpcState::AwaitPreviousBlock(_, _) => 3,
        RpcState::AwaitReplays(_, _) => 2,
        RpcState::AwaitAccounts(_) => 1,
        RpcState::Done(_) => 0,
    }
}

/// Where the checks start: at the block of the last transaction. A block without transactions needs
/// no checks.
pub fn rpc_start(ir: &[TxnProofGenIR]) -> (state: RpcState)
    ensures
        match state {
            RpcState::AwaitBlock(b_height) => ir@.len() > 0 && b_height == ir@.last().b_height,
            RpcState::Done(fetched) => ir@.len() == 0 && fetched@.len() == 0,
            _ => false,
        },
        is_valid(state),
{
    if ir.len() == 0 {
        RpcState::Done(Vec::new())
    } else {
        RpcState::AwaitBlock(ir[ir.len() - 1].b_height)
    }
}

/// What has to be asked next.
pub fn rpc_request(state: &RpcState, raw_traces: &[TxnInfo]) -> (request: Option<RpcRequest>)
    ensures
        is_asked_next(*state, raw_traces@, request),
{
    match state {
        RpcState::AwaitBlock(b_height) => Some(RpcRequest::Block(*b_height)),
        RpcState::AwaitPreviousBlock(b_height, _) => match previous_block(*b_height) {
            Some(previous) => Some(RpcRequest::Block(previous)),
            None => None,
        },
        RpcState::AwaitReplays(_, txn_hashes) => Some(RpcRequest::Replays(copy_items(txn_hashes))),
        RpcState::AwaitAccounts(b_height) => {
            let all_unique_addrs = get_all_unique_addrs_used_in_trace(raw_traces);
            Some(RpcRequest::Accounts(members_in_order(&all_unique_addrs), *b_height))
        },
        RpcState::Done(_) => None,
    }
}

/// Pairs the accounts that an upstream node told with the addresses that the trace uses; `None` where
/// there is not one for each.
pub fn get_upstream_account_state_for_all_addresses_used_in_trace(
    traces: &[TxnInfo],
    all_acc_state: &Vec<AccountRlp>,
) -> (fetched: Option<Vec<(Address, AccountRlp)>>)
    ensures
        match fetched {
            Some(fetched) => {
                &&& all_acc_state@.len() == in_order(addrs_used(traces@)).len()
                &&& fetched@ == paired(traces@, all_acc_state@)
            },
            None => all_acc_state@.len() != in_order(addrs_used(traces@)).len(),
        },
{
    let all_unique_addrs = get_all_unique_addrs_used_in_trace(traces);
    let addrs = members_in_order(&all_unique_addrs);
    if addrs.len() != all_acc_state.len() {
        return None;
    }
    let mut fetched: Vec<(Address, AccountRlp)> = Vec::new();
    for i in 0..addrs.len()
        invariant
            addrs@ == in_order(addrs_used(traces@)),
            addrs@.len() == all_acc_state@.len(),
            fetched@ == paired(traces@, all_acc_state@).take(i as int),
    {
        fetched.push((addrs[i], all_acc_state[i]));
    }
    Some(fetched)
}

/// Tests whether the tries before the transaction have roots.
fn check_initial_tries(ir: &TxnProofGenIR) -> (fit: bool)
    ensures
        fit == initial_tries_fit(*ir),
{
    check_keys_fit(&ir.state_trie) && check_keys_fit(&ir.transactions_trie) && check_keys_fit(
        &ir.receipts_trie,
    )
}

/// Goes on with the checks once the upstream node has answered: reports what is found, and gives the
/// next state. `None`, with nothing reported, where the checks cannot go on.
pub fn rpc_step(
    state: RpcState,
    reply: RpcReply,
    ir: &[TxnProofGenIR],
    trie_state_after_each_txn: &[PartialTrieState],
    raw_traces: &[TxnInfo],
    err_buf: &mut Vec<TraceVerificationError>,
) -> (next: Option<RpcState>)
    ensures
        match next {
            Some(next) => {
                &&& can_step(state, reply, ir@, trie_state_after_each_txn@, raw_traces@)
                &&& steps_to(state, reply, ir@, raw_traces@, next)
                &&& step_reports(
                    state,
                    reply,
                    ir@,
                    trie_state_after_each_txn@,
                    raw_traces@,
                    views(old(err_buf)@),
                    views(final(err_buf)@),
                )
            },
            None => {
                &&& !can_step(state, reply, ir@, trie_state_after_each_txn@, raw_traces@)
                &&& views(final(err_buf)@) == views(old(err_buf)@)
            },
        },
{
    if ir.len() == 0 {
        return None;
    }
    let local = ir[ir.len() - 1].trie_roots_after;
    match (state, reply) {
        (RpcState::AwaitBlock(b_height), RpcReply::Block(block)) => {
            if !some_roots_differ(&local, &block.roots) {
                return Some(RpcState::AwaitAccounts(b_height));
            }
            match previous_block(b_height) {
                Some(_) => Some(RpcState::AwaitPreviousBlock(b_height, block)),
                None => {
                    verify_trie_roots_match_local(
                        &local,
                        &block.roots,
                        TrieInitialOrFinal::Final,
                        err_buf,
                    );
                    Some(RpcState::AwaitReplays(b_height, block.txn_hashes))
                },
            }
        },
        (RpcState::AwaitPreviousBlock(b_height, block), RpcReply::Block(previous)) => {
            if !check_initial_tries(&ir[0]) {
                return None;
            }
            verify_that_initial_tries_are_correct(&ir[0], &previous.roots, err_buf);
            verify_trie_roots_match_local(
                &local,
                &block.roots,
                TrieInitialOrFinal::Final,
                err_buf,
            );
            Some(RpcState::AwaitReplays(b_height, block.txn_hashes))
        },
        (RpcState::AwaitReplays(b_height, txn_hashes), RpcReply::Replays(txn_diffs)) => {
            if txn_hashes.len() != ir.len() || txn_diffs.len() != txn_hashes.len() {
                return None;
            }
            if try_find_and_report_upstream_txn_states(
                &txn_diffs,
                trie_state_after_each_txn,
                err_buf,
            ) {
                Some(RpcState::AwaitAccounts(b_height))
            } else {
                None
            }
        },
        (RpcState::AwaitAccounts(_), RpcReply::Accounts(accounts)) => {
            let fetched = match get_upstream_account_state_for_all_addresses_used_in_trace(
                raw_traces,
                &accounts,
            ) {
                Some(fetched) => fetched,
                None => {
                    return None;
                },
            };
            if trie_state_after_each_txn.len() > 0 {
                let last_txn: TxnIdx = trie_state_after_each_txn.len() - 1;
                match find_accounts_that_differ(
                    &trie_state_after_each_txn[last_txn],
                    last_txn,
                    &fetched,
                ) {
                    Some(errs) => {
                        append_errors(err_buf, errs);
                    },
                    None => {
                        return None;
                    },
                }
            }
            Some(RpcState::Done(fetched))
        },
        _ => None,
    }
}

/// Every answer brings the checks closer to their end.
pub proof fn law_every_step_comes_closer_to_the_end(
    state: RpcState,
    reply: RpcReply,
    ir: Seq<TxnProofGenIR>,
    raw_traces: Seq<TxnInfo>,
    next: RpcState,
)
    requires
        is_valid(state),
        steps_to(state, reply, ir, raw_traces, next),
    ensures
        is_valid(next),
        steps_left(next) < steps_left(state),
{
}

/// Something is asked until the checks are done.
pub proof fn law_something_is_asked_until_the_end(
    state: RpcState,
    raw_traces: Seq<TxnInfo>,
    request: Option<RpcRequest>,
)
    requires
        is_valid(state),
        is_asked_next(state, raw_traces, request),
    ensures
        request is None <==> state is Done,
{
}

/// Each account that the trace uses is asked for once, and no other is.
pub proof fn law_each_account_is_asked_for_once(traces: Seq<TxnInfo>)
    ensures
        in_order(addrs_used(traces)).to_set() == addrs_used(traces),
        in_order(addrs_used(traces)).no_duplicates(),
{
    let addrs = in_order(addrs_used(traces));
    lemma_addrs_used_are_finite(traces);
    lemma_addresses_are_ordered();
    lemma_in_order(addrs_used(traces));
    lemma_addresses_increase(addrs);
    assert forall|i: int, j: int| 0 <= i < addrs.len() && 0 <= j < addrs.len() && i != j implies
        addrs[i] != addrs[j] by {
        if i < j {
            assert(address_before(addrs[i], addrs[j]));
        } else {
            assert(address_before(addrs[j], addrs[i]));
        }
    }
}

proof fn lemma_addrs_used_are_finite(traces: Seq<TxnInfo>)
    ensures
        addrs_used(traces).finite(),
    decreases traces.len(),
{
    if traces.len() == 0 {
        assert(addrs_used(traces) =~= Set::empty());
    } else {
        let rest = traces.drop_last();
        lemma_addrs_used_are_finite(rest);
        let last = traces.last().traces@.dom();
        assert(addrs_used(traces) =~= addrs_used(rest).union(last)) by {
            assert forall|addr: Address| addrs_used(traces).contains(addr) == (addrs_used(
                rest,
            ).contains(addr) || last.contains(addr)) by {
                if addrs_used(traces).contains(addr) {
                    let t = choose|t: int|
                        0 <= t < traces.len() && (#[trigger] traces[t]).traces@.contains_key(addr);
                    if t < rest.len() {
                        assert(rest[t].traces@.contains_key(addr));
                    }
                }
                if addrs_used(rest).contains(addr) {
                    let t = choose|t: int|
                        0 <= t < rest.len() && (#[trigger] rest[t]).traces@.contains_key(addr);
                    assert(traces[t].traces@.contains_key(addr));
                }
                if last.contains(addr) {
                    assert(traces[traces.len() - 1].traces@.contains_key(addr));
                }
            }
        }
    }
}

/// Nothing that has been reported is ever taken back.
pub proof fn law_reports_only_grow(
    state: RpcState,
    reply: RpcReply,
    ir: Seq<TxnProofGenIR>,
    trie_state_after_each_txn: Seq<PartialTrieState>,
    raw_traces: Seq<TxnInfo>,
    before: Seq<TraceVerificationErrorView>,
    after: Seq<TraceVerificationErrorView>,
)
    requires
        step_reports(state, reply, ir, trie_state_after_each_txn, raw_traces, before, after),
    ensures
        before.is_prefix_of(after),
{
    if let (RpcState::AwaitReplays(_, _), RpcReply::Replays(txn_diffs)) = (state, reply) {
        law_at_most_one_mismatch_is_reported(
            txn_diffs@,
            trie_state_after_each_txn,
            before,
            after,
        );
    }
    assert(after.subrange(0, before.len() as int) =~= before);
}

/// Whether the states and what has been reported in each follow from one another by these replies.
pub open spec fn is_run(
    states: Seq<RpcState>,
    replies: Seq<RpcReply>,
    reported: Seq<Seq<TraceVerificationErrorView>>,
    ir: Seq<TxnProofGenIR>,
    trie_state_after_each_txn: Seq<PartialTrieState>,
    raw_traces: Seq<TxnInfo>,
) -> bool {
    &&& states.len() == replies.len() + 1
    &&& reported.len() == replies.len() + 1
    &&& forall|i: int|
        0 <= i < replies.len() ==> {
            &&& can_step(
                states[i],
                #[trigger] replies[i],
                ir,
                trie_state_after_each_txn,
                raw_traces,
            )
            &&& steps_to(states[i], replies[i], ir, raw_traces, states[i + 1])
            &&& step_reports(
                states[i],
                replies[i],
                ir,
                trie_state_after_each_txn,
                raw_traces,
                reported[i],
                reported[i + 1],
            )
        }
}

/// What the checks report from start to end. Where the roots after the block are those of the
/// upstream node, only accounts are asked for. Where they are not, first come the roots before the
/// block that differ from those of the block before, if there is one; then the roots after the block
/// that differ; then the first account that differs after some transaction. The accounts that differ
/// after the block come last.
pub proof fn law_complete_run(
    states: Seq<RpcState>,
    replies: Seq<RpcReply>,
    reported: Seq<Seq<TraceVerificationErrorView>>,
    ir: Seq<TxnProofGenIR>,
    trie_state_after_each_txn: Seq<PartialTrieState>,
    raw_traces: Seq<TxnInfo>,
    b_height: BlockHeight,
)
    requires
        is_run(states, replies, reported, ir, trie_state_after_each_txn, raw_traces),
        states.first() == RpcState::AwaitBlock(b_height),
        states.last() is Done,
    ensures
        replies.len() > 1,
        replies.first() is Block,
        replies.last() is Accounts,
        trie_state_after_each_txn.len() > 0 ==> final_accounts_are_readable(
            trie_state_after_each_txn.last(),
            paired(raw_traces, replies.last()->Accounts_0@),
        ),
        reported.last() == reported[replies.len() - 1] + reported_of_accounts(
            raw_traces,
            trie_state_after_each_txn,
            replies.last()->Accounts_0@,
        ),
        ({
            let local = ir.last().trie_roots_after;
            let upstream = replies.first()->Block_0.roots;
            let at_end = roots_errors(local, upstream, TrieInitialOrFinal::Final);
            let before_accounts = reported[replies.len() - 1];
            if local == upstream {
                &&& replies.len() == 2
                &&& before_accounts == reported.first()
            } else if b_height == 0 {
                &&& replies.len() == 3
                &&& replies[1] matches RpcReply::Replays(txn_diffs)
                &&& first_mismatch_is_reported(
                    txn_diffs@,
                    trie_state_after_each_txn,
                    reported.first() + at_end,
                    before_accounts,
                )
            } else {
                &&& replies.len() == 4
                &&& replies[1] matches RpcReply::Block(previous)
                &&& replies[2] matches RpcReply::Replays(txn_diffs)
                &&& first_mismatch_is_reported(
                    txn_diffs@,
                    trie_state_after_each_txn,
                    reported.first() + roots_errors(
                        initial_roots(ir[0]),
                        previous.roots,
                        TrieInitialOrFinal::Initial,
                    ) + at_end,
                    before_accounts,
                )
            }
        }),
{
    let first = replies[0];
    if replies.len() > 1 {
        let second = replies[1];
        if replies.len() > 2 {
            let third = replies[2];
            if replies.len() > 3 {
                let fourth = replies[3];
                if replies.len() > 4 {
                    let fifth = replies[4];
                    assert(false);
                }
            }
        }
    }
}

/// A difference in the roots or in the accounts after the block never goes unreported, and nothing is
/// reported without one.
pub proof fn law_differences_are_reported(
    states: Seq<RpcState>,
    replies: Seq<RpcReply>,
    reported: Seq<Seq<TraceVerificationErrorView>>,
    ir: Seq<TxnProofGenIR>,
    trie_state_after_each_txn: Seq<PartialTrieState>,
    raw_traces: Seq<TxnInfo>,
    b_height: BlockHeight,
)
    requires
        is_run(states, replies, reported, ir, trie_state_after_each_txn, raw_traces),
        states.first() == RpcState::AwaitBlock(b_height),
        states.last() is Done,
    ensures
        reported.last().len() >= reported.first().len(),
        reported.last().len() == reported.first().len() <==> {
            &&& ir.last().trie_roots_after == replies.first()->Block_0.roots
            &&& accounts_agree(
                raw_traces,
                trie_state_after_each_txn,
                replies.last()->Accounts_0@,
            )
        },
{
    law_complete_run(
        states,
        replies,
        reported,
        ir,
        trie_state_after_each_txn,
        raw_traces,
        b_height,
    );
    law_roots_are_reported_where_they_differ(
        ir.last().trie_roots_after,
        replies.first()->Block_0.roots,
        TrieInitialOrFinal::Final,
    );
    if trie_state_after_each_txn.len() > 0 {
        law_agreeing_accounts_pass(
            trie_state_after_each_txn.last(),
            (trie_state_after_each_txn.len() - 1) as TxnIdx,
            paired(raw_traces, replies.last()->Accounts_0@),
        );
    }
}

/// Where the accounts after the block are those of the upstream node, the storage roots of all accounts
/// with written storage are too: held against the roots that come with the accounts, none differs.
pub proof fn law_agreeing_accounts_have_agreeing_storage(
    raw_traces: Seq<TxnInfo>,
    local: PartialTrieState,
    accounts: Seq<AccountRlp>,
    upstream_s_roots: Seq<TrieRootHash>,
)
    requires
        have_storage_roots(local.storage@, addresses_checked(raw_traces)),
        final_accounts_agree(local, paired(raw_traces, accounts)),
        upstream_s_roots.len() == addresses_checked(raw_traces).len(),
        forall|i: int|
            0 <= i < upstream_s_roots.len() ==> exists|j: int|
                0 <= j < accounts.len() && (#[trigger] paired(raw_traces, accounts)[j]).0
                    == addresses_checked(raw_traces)[i] && accounts[j].storage_root
                    == #[trigger] upstream_s_roots[i],
    ensures
        storage_root_errors(
            storage_roots_of(local.storage@, addresses_checked(raw_traces)),
            upstream_s_roots,
        ).len() == 0,
{
    let addrs = addresses_checked(raw_traces);
    let ours = storage_roots_of(local.storage@, addrs);
    assert forall|i: int| 0 <= i < ours.len() implies ours[i] == upstream_s_roots[i] by {
        let j = choose|j: int|
            0 <= j < accounts.len() && (#[trigger] paired(raw_traces, accounts)[j]).0 == addrs[i]
                && accounts[j].storage_root == upstream_s_roots[i];
        assert(local.storage@.contains_key(hashed_address(addrs[i])));
        assert(final_account_agrees(
            local,
            paired(raw_traces, accounts)[j].0,
            paired(raw_traces, accounts)[j].1,
        ));
    }
    assert(ours =~= upstream_s_roots);
    assert(ours =~= upstream_s_roots.subrange(0, ours.len() as int));
    law_storage_roots_are_reported_where_they_differ(ours, upstream_s_roots);
}

} // verus!
