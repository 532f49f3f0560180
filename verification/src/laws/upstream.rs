//! The checks against an upstream node, and the verification of a block as a whole.

use crate::after_txn::{states_are_checkable, states_errors};
use crate::block::{is_checkable, is_start, local_errors};
use crate::codec::hashed_address;
use crate::errors::TraceVerificationErrorView;
use crate::final_accounts::{final_account_errors, final_accounts_are_readable};
use crate::order::in_order;
use crate::prestate::{pre_state_errors, pre_state_is_checkable};
use crate::reverse_hash::PartialTriePreImages;
use crate::roots::{initial_roots, initial_tries_fit, root_errors, roots_errors, TxnProofGenIR};
use crate::rpc::{
    can_step, is_asked_next, is_valid, paired, reported_of_accounts, step_reports, steps_left,
    steps_to, RpcReply, RpcRequest, RpcState, UpstreamBlock,
};
use crate::storage_roots::{
    addresses_checked, checked_among, have_storage_roots, storage_root_errors, storage_roots_of,
};
use crate::trace::{addrs_used, ProcessedTxnInfo, TxnInfo, TxnTrace};
use crate::trie::{keys_fit, root_of, trie_view};
use crate::txn_state::{
    first_mismatch_is_reported, readable_to_first_mismatch, PartialTrieState, TxnStateDiff,
};
use crate::types::{
    AccountRlp, Address, BlockHeight, CodeHash, HashedStorageAddr, StorageAddr, StorageVal,
    TrieInitialOrFinal, TrieRootHash, TrieRoots, TrieType, TxnIdx, H256,
};
use eth_trie_utils::partial_trie::PartialTrie;
use vstd::prelude::*;

verus! {

/// Whether a root is reported as it should be among these errors: exactly where the two differ, with
/// exactly these two.
pub open spec fn root_is_reported(
    errs: Seq<TraceVerificationErrorView>,
    of: TrieType,
    when: TrieInitialOrFinal,
    ours: TrieRootHash,
    upstream: TrieRootHash,
) -> bool {
    &&& ours != upstream <==> errs.contains(
        TraceVerificationErrorView::DecoderTrieRootMismatch(of, when, ours, upstream),
    )
    &&& forall|i: int|
        0 <= i < errs.len() ==> ((
        #[trigger] errs[i]) matches TraceVerificationErrorView::DecoderTrieRootMismatch(o, _, _, _)
            ==> o == of ==> errs[i] == TraceVerificationErrorView::DecoderTrieRootMismatch(
            of,
            when,
            ours,
            upstream,
        ))
}

/// Two roots are reported exactly where they differ, ours before upstream's.
pub proof fn law_one_root(
    ours: TrieRootHash,
    upstream: TrieRootHash,
    when: TrieInitialOrFinal,
    of: TrieType,
)
    ensures
        ours == upstream ==> root_errors(ours, upstream, when, of).len() == 0,
        ours != upstream ==> root_errors(ours, upstream, when, of) == seq![
            TraceVerificationErrorView::DecoderTrieRootMismatch(of, when, ours, upstream),
        ],
{
}

/// Of two sets of roots, the state, transactions and receipts roots are each reported exactly where
/// they differ, in this order, and nothing else is.
pub proof fn law_three_roots(local: TrieRoots, upstream: TrieRoots, when: TrieInitialOrFinal)
    ensures
        ({
            let errs = roots_errors(local, upstream, when);
            &&& root_is_reported(errs, TrieType::State, when, local.state_root, upstream.state_root)
            &&& root_is_reported(
                errs,
                TrieType::Txn,
                when,
                local.transactions_root,
                upstream.transactions_root,
            )
            &&& root_is_reported(
                errs,
                TrieType::Receipt,
                when,
                local.receipts_root,
                upstream.receipts_root,
            )
            &&& errs.len() == (if local.state_root == upstream.state_root {
                0int
            } else {
                1
            }) + (if local.transactions_root == upstream.transactions_root {
                0int
            } else {
                1
            }) + (if local.receipts_root == upstream.receipts_root {
                0int
            } else {
                1
            })
            &&& local.state_root != upstream.state_root ==> errs[0]
                == TraceVerificationErrorView::DecoderTrieRootMismatch(
                TrieType::State,
                when,
                local.state_root,
                upstream.state_root,
            )
            &&& local.receipts_root != upstream.receipts_root ==> errs.last()
                == TraceVerificationErrorView::DecoderTrieRootMismatch(
                TrieType::Receipt,
                when,
                local.receipts_root,
                upstream.receipts_root,
            )
        }),
{
    let errs = roots_errors(local, upstream, when);
    let state = root_errors(local.state_root, upstream.state_root, when, TrieType::State);
    let txn = root_errors(local.transactions_root, upstream.transactions_root, when, TrieType::Txn);
    let receipt = root_errors(local.receipts_root, upstream.receipts_root, when, TrieType::Receipt);
    assert(errs == state + txn + receipt);
    if state.len() > 0 {
        assert(errs[0] == state[0]);
    }
    if txn.len() > 0 {
        assert(errs[state.len() as int] == txn[0]);
    }
    if receipt.len() > 0 {
        assert(errs[(state.len() + txn.len()) as int] == receipt[0]);
    }
}

/// The roots that the first transaction starts from are held against upstream's: the root of the state
/// trie against the state root, that of the transactions trie against the transactions root and that
/// of the receipts trie against the receipts root.
pub proof fn law_initial_tries_are_held_against_their_roots(
    ir: TxnProofGenIR,
    upstream: TrieRoots,
)
    ensures
        ({
            let errs = roots_errors(initial_roots(ir), upstream, TrieInitialOrFinal::Initial);
            &&& root_is_reported(
                errs,
                TrieType::State,
                TrieInitialOrFinal::Initial,
                root_of(trie_view(ir.state_trie)),
                upstream.state_root,
            )
            &&& root_is_reported(
                errs,
                TrieType::Txn,
                TrieInitialOrFinal::Initial,
                root_of(trie_view(ir.transactions_trie)),
                upstream.transactions_root,
            )
            &&& root_is_reported(
                errs,
                TrieType::Receipt,
                TrieInitialOrFinal::Initial,
                root_of(trie_view(ir.receipts_trie)),
                upstream.receipts_root,
            )
        }),
        initial_tries_fit(ir) <==> {
            &&& keys_fit(ir.state_trie)
            &&& keys_fit(ir.transactions_trie)
            &&& keys_fit(ir.receipts_trie)
        },
{
    law_three_roots(initial_roots(ir), upstream, TrieInitialOrFinal::Initial);
}

proof fn lemma_checked_among(
    traces: Map<Address, TxnTrace>,
    addrs: Seq<Address>,
)
    ensures
        checked_among(traces, addrs) == addrs.filter_map(
            |addr: Address|
                match traces[addr].storage_written {
                    Some(written) => if written@.dom() == Set::<StorageAddr>::empty() {
                        None
                    } else {
                        Some(addr)
                    },
                    None => None,
                },
        ),
    decreases addrs.len(),
{
    if addrs.len() > 0 {
        lemma_checked_among(traces, addrs.drop_last());
        if let Some(written) = traces[addrs.last()].storage_written {
            if written@.dom() == Set::<StorageAddr>::empty() {
                assert(written@ =~= Map::<StorageAddr, StorageVal>::empty());
            }
        }
    }
}

/// A transaction adds to the accounts whose storage root is checked those that it writes to, by
/// ascending address.
pub proof fn law_accounts_whose_storage_is_checked(traces: Seq<TxnInfo>, txn: TxnInfo)
    ensures
        addresses_checked(Seq::empty()).len() == 0,
        addresses_checked(traces.push(txn)) == addresses_checked(traces) + in_order(
            txn.traces@.dom(),
        ).filter_map(
            |addr: Address|
                match txn.traces@[addr].storage_written {
                    Some(written) => if written@.dom() == Set::<StorageAddr>::empty() {
                        None
                    } else {
                        Some(addr)
                    },
                    None => None,
                },
        ),
{
    assert(traces.push(txn).drop_last() =~= traces);
    lemma_checked_among(txn.traces@, in_order(txn.traces@.dom()));
}

/// The storage root of each account is that of the trie under the hash of its address; there are roots
/// exactly where each account has such a trie, with keys that fit.
pub proof fn law_storage_roots_by_account(
    s_tries: Map<HashedStorageAddr, PartialTrie>,
    addrs: Seq<Address>,
)
    ensures
        have_storage_roots(s_tries, addrs) <==> forall|i: int|
            0 <= i < addrs.len() ==> s_tries.dom().contains(hashed_address(#[trigger] addrs[i]))
                && keys_fit(s_tries[hashed_address(addrs[i])]),
        storage_roots_of(s_tries, addrs).len() == addrs.len(),
        forall|i: int|
            0 <= i < addrs.len() ==> #[trigger] storage_roots_of(s_tries, addrs)[i] == root_of(
                trie_view(s_tries[hashed_address(addrs[i])]),
            ),
{
}

/// Storage roots are compared pair by pair, and what has no counterpart is passed over.
pub proof fn law_storage_roots_are_compared_in_pairs(
    ours: Seq<TrieRootHash>,
    our_root: TrieRootHash,
    upstream: Seq<TrieRootHash>,
)
    ensures
        storage_root_errors(Seq::empty(), upstream).len() == 0,
        ours.len() >= upstream.len() ==> storage_root_errors(ours.push(our_root), upstream)
            == storage_root_errors(ours, upstream),
        ours.len() < upstream.len() && our_root == upstream[ours.len() as int]
            ==> storage_root_errors(ours.push(our_root), upstream) == storage_root_errors(
            ours,
            upstream,
        ),
        ours.len() < upstream.len() && our_root != upstream[ours.len() as int]
            ==> storage_root_errors(ours.push(our_root), upstream) == storage_root_errors(
            ours,
            upstream,
        ).push(
            TraceVerificationErrorView::DecoderTrieRootMismatch(
                TrieType::Storage,
                TrieInitialOrFinal::Final,
                our_root,
                upstream[ours.len() as int],
            ),
        ),
{
    assert(ours.push(our_root).drop_last() =~= ours);
    assert(storage_root_errors(ours, upstream) + Seq::<TraceVerificationErrorView>::empty()
        =~= storage_root_errors(ours, upstream));
}

/// While the block is awaited, it is the block at that height that is asked for, and any block is
/// taken.
pub proof fn law_block_is_asked_and_taken(
    b_height: BlockHeight,
    block: UpstreamBlock,
    ir: Seq<TxnProofGenIR>,
    states: Seq<PartialTrieState>,
    raw_traces: Seq<TxnInfo>,
    request: Option<RpcRequest>,
)
    ensures
        is_asked_next(RpcState::AwaitBlock(b_height), raw_traces, request) <==> request == Some(
            RpcRequest::Block(b_height),
        ),
        can_step(
            RpcState::AwaitBlock(b_height),
            RpcReply::Block(block),
            ir,
            states,
            raw_traces,
        ) <==> ir.len() > 0,
        is_valid(RpcState::AwaitBlock(b_height)),
{
}

/// While the block before is awaited, it is that block that is asked for, and any block is taken where
/// the tries that the first transaction starts from have roots.
pub proof fn law_previous_block_is_asked_and_taken(
    b_height: BlockHeight,
    block: UpstreamBlock,
    previous: UpstreamBlock,
    ir: Seq<TxnProofGenIR>,
    states: Seq<PartialTrieState>,
    raw_traces: Seq<TxnInfo>,
    request: Option<RpcRequest>,
)
    ensures
        b_height > 0 ==> (is_asked_next(
            RpcState::AwaitPreviousBlock(b_height, block),
            raw_traces,
            request,
        ) <==> (request matches Some(RpcRequest::Block(asked)) && asked + 1 == b_height)),
        is_valid(RpcState::AwaitPreviousBlock(b_height, block)) <==> b_height > 0,
        can_step(
            RpcState::AwaitPreviousBlock(b_height, block),
            RpcReply::Block(previous),
            ir,
            states,
            raw_traces,
        ) <==> {
            &&& ir.len() > 0
            &&& keys_fit(ir[0].state_trie)
            &&& keys_fit(ir[0].transactions_trie)
            &&& keys_fit(ir[0].receipts_trie)
        },
{
}

/// While the replays are awaited, exactly the listed transactions are asked for. The answer is taken
/// exactly where there is one transaction for each of ours and one answer for each transaction,
/// however many there are, and everything up to the first mismatch can be read.
pub proof fn law_replays_are_asked_and_taken(
    b_height: BlockHeight,
    txn_hashes: Vec<H256>,
    txn_diffs: Vec<TxnStateDiff>,
    ir: Seq<TxnProofGenIR>,
    states: Seq<PartialTrieState>,
    raw_traces: Seq<TxnInfo>,
    request: Option<RpcRequest>,
)
    ensures
        is_asked_next(RpcState::AwaitReplays(b_height, txn_hashes), raw_traces, request) <==> (
        request matches Some(RpcRequest::Replays(asked)) && asked@ == txn_hashes@),
        is_valid(RpcState::AwaitReplays(b_height, txn_hashes)),
        can_step(
            RpcState::AwaitReplays(b_height, txn_hashes),
            RpcReply::Replays(txn_diffs),
            ir,
            states,
            raw_traces,
        ) <==> {
            &&& ir.len() > 0
            &&& txn_hashes@.len() == ir.len()
            &&& txn_diffs@.len() == ir.len()
            &&& readable_to_first_mismatch(txn_diffs@, states)
        },
{
}

/// While the accounts are awaited, exactly those that the trace uses are asked for, at that height. The
/// answer is taken exactly where there is one account for each address, however many there are, and,
/// where there is a local state, the accounts can be read from the last one.
pub proof fn law_accounts_are_asked_and_taken(
    b_height: BlockHeight,
    accounts: Vec<AccountRlp>,
    ir: Seq<TxnProofGenIR>,
    states: Seq<PartialTrieState>,
    raw_traces: Seq<TxnInfo>,
    request: Option<RpcRequest>,
    pairs: Seq<(Address, AccountRlp)>,
)
    requires
        pairs.len() == accounts@.len(),
        forall|i: int|
            0 <= i < pairs.len() ==> (#[trigger] pairs[i]).0 == in_order(addrs_used(raw_traces))[i]
                && pairs[i].1 == accounts@[i],
    ensures
        is_asked_next(RpcState::AwaitAccounts(b_height), raw_traces, request) <==> (
        request matches Some(RpcRequest::Accounts(addrs, height)) && addrs@ == in_order(
            addrs_used(raw_traces),
        ) && height == b_height),
        is_valid(RpcState::AwaitAccounts(b_height)),
        paired(raw_traces, accounts@) == pairs,
        can_step(
            RpcState::AwaitAccounts(b_height),
            RpcReply::Accounts(accounts),
            ir,
            states,
            raw_traces,
        ) <==> {
            &&& ir.len() > 0
            &&& accounts@.len() == in_order(addrs_used(raw_traces)).len()
            &&& states.len() == 0 || final_accounts_are_readable(
                states[states.len() - 1],
                pairs,
            )
        },
{
    assert(paired(raw_traces, accounts@) =~= pairs);
}

/// Once all is done nothing is asked, and no answer is taken that was not asked for.
pub proof fn law_other_answers_are_not_taken(
    state: RpcState,
    reply: RpcReply,
    ir: Seq<TxnProofGenIR>,
    states: Seq<PartialTrieState>,
    raw_traces: Seq<TxnInfo>,
    request: Option<RpcRequest>,
)
    ensures
        state is Done ==> (is_asked_next(state, raw_traces, request) <==> request is None),
        state is Done ==> !can_step(state, reply, ir, states, raw_traces),
        can_step(state, reply, ir, states, raw_traces) ==> {
            ||| state is AwaitBlock && reply is Block
            ||| state is AwaitPreviousBlock && reply is Block
            ||| state is AwaitReplays && reply is Replays
            ||| state is AwaitAccounts && reply is Accounts
        },
{
}

/// A block whose three roots are ours needs nothing but its accounts; where one differs the block
/// before is fetched, and at height zero the transactions are replayed.
pub proof fn law_what_follows_a_block(
    b_height: BlockHeight,
    block: UpstreamBlock,
    ir: Seq<TxnProofGenIR>,
    raw_traces: Seq<TxnInfo>,
    next: RpcState,
)
    requires
        ir.len() > 0,
        steps_to(
            RpcState::AwaitBlock(b_height),
            RpcReply::Block(block),
            ir,
            raw_traces,
            next,
        ),
    ensures
        ({
            let ours = ir[ir.len() - 1].trie_roots_after;
            let same = ours.state_root == block.roots.state_root && ours.transactions_root
                == block.roots.transactions_root && ours.receipts_root == block.roots.receipts_root;
            &&& same ==> next == RpcState::AwaitAccounts(b_height)
            &&& !same && b_height > 0 ==> next == RpcState::AwaitPreviousBlock(b_height, block)
            &&& !same && b_height == 0 ==> next == RpcState::AwaitReplays(b_height, block.txn_hashes)
        }),
{
}

/// After the block before, the transactions of the block itself are replayed; after the replays its
/// accounts are fetched; with them, each beside its address, all is done.
pub proof fn law_what_follows_the_other_answers(
    b_height: BlockHeight,
    block: UpstreamBlock,
    previous: UpstreamBlock,
    txn_hashes: Vec<H256>,
    txn_diffs: Vec<TxnStateDiff>,
    accounts: Vec<AccountRlp>,
    ir: Seq<TxnProofGenIR>,
    raw_traces: Seq<TxnInfo>,
    next: RpcState,
)
    ensures
        steps_to(
            RpcState::AwaitPreviousBlock(b_height, block),
            RpcReply::Block(previous),
            ir,
            raw_traces,
            next,
        ) <==> next == RpcState::AwaitReplays(b_height, block.txn_hashes),
        steps_to(
            RpcState::AwaitReplays(b_height, txn_hashes),
            RpcReply::Replays(txn_diffs),
            ir,
            raw_traces,
            next,
        ) <==> next == RpcState::AwaitAccounts(b_height),
        steps_to(
            RpcState::AwaitAccounts(b_height),
            RpcReply::Accounts(accounts),
            ir,
            raw_traces,
            next,
        ) <==> {
            &&& next matches RpcState::Done(fetched)
            &&& fetched@.len() == accounts@.len()
            &&& forall|i: int|
                0 <= i < fetched@.len() ==> (#[trigger] fetched@[i]).0 == in_order(
                    addrs_used(raw_traces),
                )[i] && fetched@[i].1 == accounts@[i]
        },
{
    if let RpcState::Done(fetched) = next {
        if fetched@.len() == accounts@.len() && forall|i: int|
            0 <= i < fetched@.len() ==> (#[trigger] fetched@[i]).0 == in_order(
                addrs_used(raw_traces),
            )[i] && fetched@[i].1 == accounts@[i] {
            assert(fetched@ =~= paired(raw_traces, accounts@));
        }
    }
}

/// With the block nothing is reported but at height zero, where the final roots are held against
/// upstream's; with the block before, first the roots that the first transaction starts from are held
/// against that block's, then the final roots against those of the block itself.
pub proof fn law_roots_reported_on_the_way(
    b_height: BlockHeight,
    block: UpstreamBlock,
    previous: UpstreamBlock,
    ir: Seq<TxnProofGenIR>,
    states: Seq<PartialTrieState>,
    raw_traces: Seq<TxnInfo>,
    before: Seq<TraceVerificationErrorView>,
    after: Seq<TraceVerificationErrorView>,
    start: TrieRoots,
)
    requires
        ir.len() > 0,
        start.state_root == root_of(trie_view(ir[0].state_trie)),
        start.transactions_root == root_of(trie_view(ir[0].transactions_trie)),
        start.receipts_root == root_of(trie_view(ir[0].receipts_trie)),
    ensures
        step_reports(
            RpcState::AwaitBlock(b_height),
            RpcReply::Block(block),
            ir,
            states,
            raw_traces,
            before,
            after,
        ) <==> if b_height > 0 {
            after == before
        } else {
            after == before + roots_errors(
                ir[ir.len() - 1].trie_roots_after,
                block.roots,
                TrieInitialOrFinal::Final,
            )
        },
        step_reports(
            RpcState::AwaitPreviousBlock(b_height, block),
            RpcReply::Block(previous),
            ir,
            states,
            raw_traces,
            before,
            after,
        ) <==> after == before + roots_errors(
            start,
            previous.roots,
            TrieInitialOrFinal::Initial,
        ) + roots_errors(
            ir[ir.len() - 1].trie_roots_after,
            block.roots,
            TrieInitialOrFinal::Final,
        ),
{
    assert(start == initial_roots(ir[0]));
}

/// With the replays the first mismatch is reported; with the accounts, those that are not what the
/// last state holds, under the number of the last transaction, and nothing where there is no state.
pub proof fn law_accounts_reported_on_the_way(
    b_height: BlockHeight,
    txn_hashes: Vec<H256>,
    txn_diffs: Vec<TxnStateDiff>,
    accounts: Vec<AccountRlp>,
    ir: Seq<TxnProofGenIR>,
    states: Seq<PartialTrieState>,
    raw_traces: Seq<TxnInfo>,
    before: Seq<TraceVerificationErrorView>,
    after: Seq<TraceVerificationErrorView>,
    pairs: Seq<(Address, AccountRlp)>,
    last: TxnIdx,
)
    requires
        pairs.len() == accounts@.len(),
        forall|i: int|
            0 <= i < pairs.len() ==> (#[trigger] pairs[i]).0 == in_order(addrs_used(raw_traces))[i]
                && pairs[i].1 == accounts@[i],
        states.len() > 0 ==> last + 1 == states.len(),
    ensures
        step_reports(
            RpcState::AwaitReplays(b_height, txn_hashes),
            RpcReply::Replays(txn_diffs),
            ir,
            states,
            raw_traces,
            before,
            after,
        ) <==> first_mismatch_is_reported(txn_diffs@, states, before, after),
        step_reports(
            RpcState::AwaitAccounts(b_height),
            RpcReply::Accounts(accounts),
            ir,
            states,
            raw_traces,
            before,
            after,
        ) <==> if states.len() == 0 {
            after == before
        } else {
            after == before + final_account_errors(states[states.len() - 1], last, pairs)
        },
        states.len() == 0 ==> reported_of_accounts(raw_traces, states, accounts@).len() == 0,
        states.len() > 0 ==> reported_of_accounts(raw_traces, states, accounts@)
            == final_account_errors(states[states.len() - 1], last, pairs),
{
    assert(paired(raw_traces, accounts@) =~= pairs);
    assert(before + Seq::<TraceVerificationErrorView>::empty() =~= before);
}

/// Every answer that is taken brings the end nearer, and at the end nothing is left.
pub proof fn law_each_answer_brings_the_end_nearer(
    state: RpcState,
    reply: RpcReply,
    ir: Seq<TxnProofGenIR>,
    raw_traces: Seq<TxnInfo>,
    next: RpcState,
)
    requires
        steps_to(state, reply, ir, raw_traces, next),
    ensures
        steps_left(next) < steps_left(state) <= 4,
        steps_left(next) == 0 <==> next is Done,
{
}

/// The checks against an upstream node start at the block of the last transaction, where there is a
/// transaction and an upstream node, and else are done, with nothing fetched.
pub proof fn law_where_the_checks_start(
    ir: Seq<TxnProofGenIR>,
    against_upstream: bool,
    state: RpcState,
)
    requires
        is_start(ir, against_upstream, state),
    ensures
        against_upstream && ir.len() > 0 ==> state == RpcState::AwaitBlock(
            ir[ir.len() - 1].b_height,
        ),
        !(against_upstream && ir.len() > 0) ==> {
            &&& state matches RpcState::Done(fetched)
            &&& fetched@.len() == 0
        },
{
}

/// The local checks report what is wrong before the block, then what is wrong after each transaction,
/// where code is known that was supplied or that the block created; they can be made exactly where
/// both parts can.
pub proof fn law_local_checks(
    pre_image: PartialTriePreImages,
    code_supplied: Set<CodeHash>,
    code_created: Set<CodeHash>,
    code_known: Set<CodeHash>,
    raw_traces: Seq<TxnInfo>,
    tries: PartialTriePreImages,
    traces: Seq<ProcessedTxnInfo>,
    states: Seq<PartialTrieState>,
)
    requires
        forall|code_hash: CodeHash| #[trigger]
            code_known.contains(code_hash) <==> code_supplied.contains(code_hash)
                || code_created.contains(code_hash),
    ensures
        local_errors(
            pre_image,
            code_supplied,
            code_created,
            raw_traces,
            tries,
            traces,
            states,
        ) == pre_state_errors(pre_image, code_supplied, raw_traces, tries, traces)
            + states_errors(states, traces, code_known, raw_traces),
        is_checkable(pre_image, raw_traces, tries, traces, states) <==> pre_state_is_checkable(
            pre_image,
            raw_traces,
            tries,
            traces,
        ) && states_are_checkable(states),
{
    assert(code_supplied.union(code_created) =~= code_known);
}

} // verus!
