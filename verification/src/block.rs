//! The verification of a block as a whole.

use crate::after_txn::{
    code_run_by, law_complete_states_pass, state_is_checkable, states_are_checkable,
    states_are_complete, states_errors, verify_states_after_each_txn,
};
use crate::errors::{append_errors, views, TraceVerificationError, TraceVerificationErrorView};
use crate::final_accounts::final_account_errors;
use crate::messages::all_can_be_shown;
use crate::prestate::{
    code_error, errors_of, law_complete_pre_state_passes, law_culprits_are_reported,
    pre_state_errors, pre_state_is_checkable, pre_state_is_complete, storage_error,
    verify_pre_state, without_code, without_storage_trie,
};
use crate::reverse_hash::{address_lookups, PartialTriePreImages};
use crate::roots::{
    initial_roots, law_roots_are_reported_where_they_differ, roots_errors, TxnProofGenIR,
};
use crate::rpc::{
    accounts_agree, is_run, law_complete_run, law_differences_are_reported, paired, rpc_start,
    RpcReply, RpcState,
};
use crate::trace::{contract_code_accessed, storage_tries_accessed, ProcessedTxnInfo, TxnInfo};
use crate::trie::{accounts_of, leaves_of};
use crate::txn_state::{first_mismatch_is_reported, PartialTrieState, TxnStateDiff};
use crate::types::{AccountRlp, Address, CodeHash, Nibbles, TrieInitialOrFinal, TxnIdx};
use crate::unused::law_listed_keys_are_leaves;
use std::collections::BTreeMap;
use vstd::prelude::*;

verus! {

/// Whether this is where the checks against an upstream node start: at the block of the last
/// transaction, or at their end where there is no transaction or no upstream node.
pub open spec fn is_start(
    ir: Seq<TxnProofGenIR>,
    against_upstream: bool,
    state: RpcState,
) -> bool {
    match state {
        RpcState::AwaitBlock(b_height) => {
            &&& against_upstream
            &&& ir.len() > 0
            &&& b_height == ir.last().b_height
        },
        RpcState::Done(fetched) => {
            &&& !against_upstream || ir.len() == 0
            &&& fetched@.len() == 0
        },
        _ => false,
    }
}

/// Whether the local checks of a block can be made.
pub open spec fn is_checkable(
    pre_image: PartialTriePreImages,
    raw_traces: Seq<TxnInfo>,
    tries: PartialTriePreImages,
    traces: Seq<ProcessedTxnInfo>,
    trie_state_after_each_txn: Seq<PartialTrieState>,
) -> bool {
    &&& pre_state_is_checkable(pre_image, raw_traces, tries, traces)
    &&& states_are_checkable(trie_state_after_each_txn)
}

/// What the local checks of a block report: what is wrong before it, then what is wrong after each
/// transaction.
pub open spec fn local_errors(
    pre_image: PartialTriePreImages,
    code_supplied: Set<CodeHash>,
    code_created: Set<CodeHash>,
    raw_traces: Seq<TxnInfo>,
    tries: PartialTriePreImages,
    traces: Seq<ProcessedTxnInfo>,
    trie_state_after_each_txn: Seq<PartialTrieState>,
) -> Seq<TraceVerificationErrorView> {
    pre_state_errors(pre_image, code_supplied, raw_traces, tries, traces) + states_errors(
        trie_state_after_each_txn,
        traces,
        code_supplied.union(code_created),
        raw_traces,
    )
}

/// Begins the verification of a block: makes the checks of the tries before it and after each of its
/// transactions, and gives what they report and where the checks against an upstream node start.
/// `None` where the checks cannot be made.
pub fn begin_verification(
    pre_image: &PartialTriePreImages,
    code_supplied_by_pre_image: &BTreeMap<CodeHash, Vec<u8>>,
    code_created_by_block: &BTreeMap<CodeHash, Vec<u8>>,
    raw_traces: &[TxnInfo],
    tries: &PartialTriePreImages,
    traces: &[ProcessedTxnInfo],
    ir: &[TxnProofGenIR],
    trie_state_after_each_txn: &[PartialTrieState],
    against_upstream: bool,
) -> (begun: Option<(Vec<TraceVerificationError>, RpcState)>)
    ensures
        ({
            let checkable = is_checkable(
                *pre_image,
                raw_traces@,
                *tries,
                traces@,
                trie_state_after_each_txn@,
            );
            match begun {
                Some((err_buf, state)) => {
                    &&& checkable
                    &&& views(err_buf@) == local_errors(
                        *pre_image,
                        code_supplied_by_pre_image@.dom(),
                        code_created_by_block@.dom(),
                        raw_traces@,
                        *tries,
                        traces@,
                        trie_state_after_each_txn@,
                    )
                    &&& is_start(ir@, against_upstream, state)
                },
                None => !checkable,
            }
        }),
{
    let mut err_buf = match verify_pre_state(
        pre_image,
        code_supplied_by_pre_image,
        raw_traces,
        tries,
        traces,
    ) {
        Some(errs) => errs,
        None => {
            return None;
        },
    };
    match verify_states_after_each_txn(
        trie_state_after_each_txn,
        traces,
        code_supplied_by_pre_image,
        code_created_by_block,
        raw_traces,
    ) {
        Some(errs) => {
            append_errors(&mut err_buf, errs);
            let state = if against_upstream {
                rpc_start(ir)
            } else {
                RpcState::Done(Vec::new())
            };
            Some((err_buf, state))
        },
        None => None,
    }
}

/// The errors for accounts have messages where the keys of those accounts can be told.
proof fn lemma_account_errors_can_be_shown(
    accounts: Seq<(Nibbles, AccountRlp)>,
    lacks: spec_fn((Nibbles, AccountRlp)) -> bool,
    error: spec_fn((Nibbles, AccountRlp)) -> TraceVerificationErrorView,
)
    requires
        forall|i: int|
            0 <= i < accounts.len() && lacks(#[trigger] accounts[i]) ==> error(
                accounts[i],
            ).can_be_shown(),
    ensures
        all_can_be_shown(errors_of(accounts, lacks, error)),
{
    let errs = errors_of(accounts, lacks, error);
    law_culprits_are_reported(accounts, lacks, error);
    assert forall|i: int| 0 <= i < errs.len() implies (#[trigger] errs[i]).can_be_shown() by {
        assert(errs.contains(errs[i]));
    }
}

/// Whatever the checks before a block report has a message.
proof fn lemma_pre_state_errors_can_be_shown(
    pre_image: PartialTriePreImages,
    code_supplied: Set<CodeHash>,
    raw_traces: Seq<TxnInfo>,
    tries: PartialTriePreImages,
    traces: Seq<ProcessedTxnInfo>,
)
    requires
        pre_state_is_checkable(pre_image, raw_traces, tries, traces),
    ensures
        all_can_be_shown(
            pre_state_errors(pre_image, code_supplied, raw_traces, tries, traces),
        ),
{
    let addrs = address_lookups(pre_image.state, raw_traces);
    let with_code = accounts_of(pre_image.state);
    let with_storage = accounts_of(tries.state);
    assert forall|i: int| 0 <= i < with_code.len() implies code_error(
        #[trigger] with_code[i],
        addrs,
    ).can_be_shown() by {
        assert(leaves_of(pre_image.state)[i].0 == with_code[i].0);
    }
    assert forall|i: int| 0 <= i < with_storage.len() implies storage_error(
        #[trigger] with_storage[i],
        addrs,
    ).can_be_shown() by {
        assert(leaves_of(tries.state)[i].0 == with_storage[i].0);
    }
    lemma_account_errors_can_be_shown(
        with_code,
        without_code(contract_code_accessed(traces), code_supplied),
        |account: (Nibbles, AccountRlp)| code_error(account, addrs),
    );
    lemma_account_errors_can_be_shown(
        with_storage,
        without_storage_trie(storage_tries_accessed(traces), tries.storage@.dom()),
        |account: (Nibbles, AccountRlp)| storage_error(account, addrs),
    );
    law_listed_keys_are_leaves(pre_image, raw_traces);
}

/// Whatever the checks after each transaction report has a message.
proof fn lemma_states_errors_can_be_shown(
    states: Seq<PartialTrieState>,
    traces: Seq<ProcessedTxnInfo>,
    code_known: Set<CodeHash>,
    raw_traces: Seq<TxnInfo>,
)
    requires
        states_are_checkable(states),
    ensures
        all_can_be_shown(states_errors(states, traces, code_known, raw_traces)),
    decreases states.len(),
{
    if states.len() > 0 {
        let rest = states.drop_last();
        let last = states.last();
        let t = states.len() - 1;
        let accounts = accounts_of(last.state);
        let addrs = address_lookups(last.state, raw_traces);
        assert forall|s: int| 0 <= s < rest.len() implies state_is_checkable(
            #[trigger] rest[s],
        ) by {
            assert(rest[s] == states[s]);
        }
        assert(state_is_checkable(states[t]));
        lemma_states_errors_can_be_shown(rest, traces, code_known, raw_traces);
        assert forall|i: int| 0 <= i < accounts.len() implies code_error(
            #[trigger] accounts[i],
            addrs,
        ).can_be_shown() && storage_error(accounts[i], addrs).can_be_shown() by {
            assert(leaves_of(last.state)[i].0 == accounts[i].0);
        }
        lemma_account_errors_can_be_shown(
            accounts,
            without_code(code_run_by(traces, t), code_known),
            |account: (Nibbles, AccountRlp)| code_error(account, addrs),
        );
        lemma_account_errors_can_be_shown(
            accounts,
            without_storage_trie(storage_tries_accessed(traces), last.storage@.dom()),
            |account: (Nibbles, AccountRlp)| storage_error(account, addrs),
        );
    }
}

/// Whatever is reported of accounts after the block has a message.
proof fn lemma_final_account_errors_can_be_shown(
    local: PartialTrieState,
    txn_idx: TxnIdx,
    upstream: Seq<(Address, AccountRlp)>,
)
    ensures
        all_can_be_shown(final_account_errors(local, txn_idx, upstream)),
    decreases upstream.len(),
{
    if upstream.len() > 0 {
        lemma_final_account_errors_can_be_shown(local, txn_idx, upstream.drop_last());
    }
}

/// Whatever the checks before the accounts report has a message.
proof fn lemma_run_errors_can_be_shown(
    txn_diffs: Seq<TxnStateDiff>,
    trie_state_after_each_txn: Seq<PartialTrieState>,
    first: Seq<TraceVerificationErrorView>,
    at_start: Seq<TraceVerificationErrorView>,
    at_end: Seq<TraceVerificationErrorView>,
    after: Seq<TraceVerificationErrorView>,
)
    requires
        all_can_be_shown(first),
        all_can_be_shown(at_start),
        all_can_be_shown(at_end),
        first_mismatch_is_reported(
            txn_diffs,
            trie_state_after_each_txn,
            first + at_start + at_end,
            after,
        ),
    ensures
        all_can_be_shown(after),
{
    let before = first + at_start + at_end;
    assert(all_can_be_shown(before));
    assert forall|i: int| 0 <= i < after.len() implies (#[trigger] after[i]).can_be_shown() by {
        if i < before.len() {
            assert(after[i] == before[i]) by {
                if after.len() > before.len() {
                    assert(after.drop_last()[i] == before[i]);
                }
            }
        } else {
            assert(after[i] == after.last());
        }
    }
}

/// Whatever a verification reports has a message: one that has come to its end, with what the local
/// checks report and what the checks against an upstream node add.
pub proof fn law_every_finding_has_a_message(
    pre_image: PartialTriePreImages,
    code_supplied: Set<CodeHash>,
    code_created: Set<CodeHash>,
    tries: PartialTriePreImages,
    traces: Seq<ProcessedTxnInfo>,
    states: Seq<RpcState>,
    replies: Seq<RpcReply>,
    reported: Seq<Seq<TraceVerificationErrorView>>,
    ir: Seq<TxnProofGenIR>,
    trie_state_after_each_txn: Seq<PartialTrieState>,
    raw_traces: Seq<TxnInfo>,
    against_upstream: bool,
)
    requires
        is_checkable(pre_image, raw_traces, tries, traces, trie_state_after_each_txn),
        reported.first() == local_errors(
            pre_image,
            code_supplied,
            code_created,
            raw_traces,
            tries,
            traces,
            trie_state_after_each_txn,
        ),
        is_run(states, replies, reported, ir, trie_state_after_each_txn, raw_traces),
        is_start(ir, against_upstream, states.first()),
        states.last() is Done,
    ensures
        all_can_be_shown(reported.last()),
{
    lemma_pre_state_errors_can_be_shown(pre_image, code_supplied, raw_traces, tries, traces);
    lemma_states_errors_can_be_shown(
        trie_state_after_each_txn,
        traces,
        code_supplied.union(code_created),
        raw_traces,
    );
    if let RpcState::AwaitBlock(b_height) = states.first() {
        law_complete_run(
            states,
            replies,
            reported,
            ir,
            trie_state_after_each_txn,
            raw_traces,
            b_height,
        );
        lemma_final_account_errors_can_be_shown(
            trie_state_after_each_txn.last(),
            (trie_state_after_each_txn.len() - 1) as TxnIdx,
            paired(raw_traces, replies.last()->Accounts_0@),
        );
        let before_accounts = reported[replies.len() - 1];
        let local = ir.last().trie_roots_after;
        let upstream = replies.first()->Block_0.roots;
        let at_end = roots_errors(local, upstream, TrieInitialOrFinal::Final);
        law_roots_are_reported_where_they_differ(local, upstream, TrieInitialOrFinal::Final);
        assert(all_can_be_shown(at_end));
        if local != upstream && b_height == 0 {
            assert(reported.first() + Seq::empty() =~= reported.first());
            lemma_run_errors_can_be_shown(
                replies[1]->Replays_0@,
                trie_state_after_each_txn,
                reported.first(),
                Seq::empty(),
                at_end,
                before_accounts,
            );
        } else if local != upstream {
            let previous = replies[1]->Block_0.roots;
            let at_start = roots_errors(
                initial_roots(ir[0]),
                previous,
                TrieInitialOrFinal::Initial,
            );
            law_roots_are_reported_where_they_differ(
                initial_roots(ir[0]),
                previous,
                TrieInitialOrFinal::Initial,
            );
            assert(all_can_be_shown(at_start));
            lemma_run_errors_can_be_shown(
                replies[2]->Replays_0@,
                trie_state_after_each_txn,
                reported.first(),
                at_start,
                at_end,
                before_accounts,
            );
        }
        assert(all_can_be_shown(before_accounts));
    } else if replies.len() > 0 {
        let first = replies[0];
        assert(false);
    }
}

/// A block passes exactly where everything that its accounts refer to and the block needs has been
/// supplied, and nothing that the block does not reach; every account has its code and its storage
/// trie after each transaction; and, if the block has transactions and is checked against an upstream
/// node, the roots after it and the accounts that the trace uses are those of the upstream node, the
/// latter as far as the local state tells them.
pub proof fn law_what_it_takes_to_pass(
    pre_image: PartialTriePreImages,
    code_supplied: Set<CodeHash>,
    code_created: Set<CodeHash>,
    tries: PartialTriePreImages,
    traces: Seq<ProcessedTxnInfo>,
    states: Seq<RpcState>,
    replies: Seq<RpcReply>,
    reported: Seq<Seq<TraceVerificationErrorView>>,
    ir: Seq<TxnProofGenIR>,
    trie_state_after_each_txn: Seq<PartialTrieState>,
    raw_traces: Seq<TxnInfo>,
    against_upstream: bool,
)
    requires
        reported.first() == local_errors(
            pre_image,
            code_supplied,
            code_created,
            raw_traces,
            tries,
            traces,
            trie_state_after_each_txn,
        ),
        is_run(states, replies, reported, ir, trie_state_after_each_txn, raw_traces),
        is_start(ir, against_upstream, states.first()),
        states.last() is Done,
    ensures
        reported.last().len() == 0 <==> {
            &&& pre_state_is_complete(pre_image, code_supplied, raw_traces, tries, traces)
            &&& states_are_complete(
                trie_state_after_each_txn,
                traces,
                code_supplied.union(code_created),
            )
            &&& against_upstream && ir.len() > 0 ==> {
                &&& ir.last().trie_roots_after == replies.first()->Block_0.roots
                &&& accounts_agree(
                    raw_traces,
                    trie_state_after_each_txn,
                    replies.last()->Accounts_0@,
                )
            }
        },
{
    law_complete_pre_state_passes(pre_image, code_supplied, raw_traces, tries, traces);
    law_complete_states_pass(
        trie_state_after_each_txn,
        traces,
        code_supplied.union(code_created),
        raw_traces,
    );
    if let RpcState::AwaitBlock(b_height) = states.first() {
        law_differences_are_reported(
            states,
            replies,
            reported,
            ir,
            trie_state_after_each_txn,
            raw_traces,
            b_height,
        );
    } else if replies.len() > 0 {
        let first = replies[0];
        assert(false);
    }
}

} // verus!
