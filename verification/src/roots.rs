//! Trie roots, held against those that an upstream node arrived at.

use crate::errors::{views, TraceVerificationError, TraceVerificationErrorView};
use crate::trie::{keys_fit, root_of, trie_root, trie_view};
use crate::types::{words_equal, BlockHeight, TrieInitialOrFinal, TrieRootHash, TrieRoots, TrieType};
use eth_trie_utils::partial_trie::PartialTrie;
use vstd::prelude::*;

verus! {

/// What is kept of one transaction for proving it.
pub struct TxnProofGenIR {
    /// The height of the block that the transaction is in.
    pub b_height: BlockHeight,
    /// The tries before the transaction.
    pub state_trie: PartialTrie,
    pub transactions_trie: PartialTrie,
    pub receipts_trie: PartialTrie,
    /// The roots of the tries after it.
    pub trie_roots_after: TrieRoots,
}

/// What is reported of two roots: an error where they differ.
pub open spec fn root_errors(
    ours: TrieRootHash,
    upstream: TrieRootHash,
    when: TrieInitialOrFinal,
    trie_type: TrieType,
) -> Seq<TraceVerificationErrorView> {
    if ours == upstream {
        Seq::empty()
    } else {
        seq![
            TraceVerificationErrorView::DecoderTrieRootMismatch(trie_type, when, ours, upstream),
        ]
    }
}

/// What is reported of two sets of roots: state, then transactions, then receipts.
pub open spec fn roots_errors(
    local: TrieRoots,
    upstream: TrieRoots,
    when: TrieInitialOrFinal,
) -> Seq<TraceVerificationErrorView> {
    root_errors(local.state_root, upstream.state_root, when, TrieType::State) + root_errors(
        local.transactions_root,
        upstream.transactions_root,
        when,
        TrieType::Txn,
    ) + root_errors(local.receipts_root, upstream.receipts_root, when, TrieType::Receipt)
}

/// Whether the tries before the transaction have roots.
pub open spec fn initial_tries_fit(ir: TxnProofGenIR) -> bool {
    keys_fit(ir.state_trie) && keys_fit(ir.transactions_trie) && keys_fit(ir.receipts_trie)
}

/// The roots of the tries before the transaction.
pub open spec fn initial_roots(ir: TxnProofGenIR) -> TrieRoots {
    TrieRoots {
        state_root: root_of(trie_view(ir.state_trie)),
        transactions_root: root_of(trie_view(ir.transactions_trie)),
        receipts_root: root_of(trie_view(ir.receipts_trie)),
    }
}

/// Whether two sets of roots differ anywhere.
pub fn some_roots_differ(local: &TrieRoots, upstream: &TrieRoots) -> (differ: bool)
    ensures
        differ == (*local != *upstream),
{
    !words_equal(&local.state_root, &upstream.state_root)
        || !words_equal(&local.transactions_root, &upstream.transactions_root)
        || !words_equal(&local.receipts_root, &upstream.receipts_root)
}

/// Reports two roots where they differ.
pub fn push_trie_root_mismatch_error_if_roots_differ(
    our_root: &TrieRootHash,
    upstream_root: &TrieRootHash,
    trie_init_or_fin: TrieInitialOrFinal,
    trie_type: TrieType,
    err_buf: &mut Vec<TraceVerificationError>,
)
    ensures
        views(final(err_buf)@) == views(old(err_buf)@) + root_errors(
            *our_root,
            *upstream_root,
            trie_init_or_fin,
            trie_type,
        ),
{
    if !words_equal(our_root, upstream_root) {
        err_buf.push(
            TraceVerificationError::DecoderTrieRootMismatch(
                trie_type,
                trie_init_or_fin,
                *our_root,
                *upstream_root,
            ),
        );
    }
}

/// Reports the local roots that are not those of the upstream node.
pub fn verify_trie_roots_match_local(
    local_roots: &TrieRoots,
    upstream_roots: &TrieRoots,
    trie_init_or_fin: TrieInitialOrFinal,
    err_buf: &mut Vec<TraceVerificationError>,
)
    ensures
        views(final(err_buf)@) == views(old(err_buf)@) + roots_errors(
            *local_roots,
            *upstream_roots,
            trie_init_or_fin,
        ),
{
    push_trie_root_mismatch_error_if_roots_differ(
        &local_roots.state_root,
        &upstream_roots.state_root,
        trie_init_or_fin,
        TrieType::State,
        err_buf,
    );
    push_trie_root_mismatch_error_if_roots_differ(
        &local_roots.transactions_root,
        &upstream_roots.transactions_root,
        trie_init_or_fin,
        TrieType::Txn,
        err_buf,
    );
    push_trie_root_mismatch_error_if_roots_differ(
        &local_roots.receipts_root,
        &upstream_roots.receipts_root,
        trie_init_or_fin,
        TrieType::Receipt,
        err_buf,
    );
}

/// The height of the block before, whose roots are those that a block starts from; the first block
/// has none.
pub fn previous_block(b_height: BlockHeight) -> (previous: Option<BlockHeight>)
    ensures
        previous == if b_height == 0 {
            None
        } else {
            Some((b_height - 1) as BlockHeight)
        },
{
    if b_height == 0 {
        None
    } else {
        Some(b_height - 1)
    }
}

/// Reports the tries before the block's first transaction whose roots are not those of the block
/// before, as the upstream node tells them.
pub fn verify_that_initial_tries_are_correct(
    initial_ir: &TxnProofGenIR,
    upstream_roots: &TrieRoots,
    err_buf: &mut Vec<TraceVerificationError>,
)
    requires
        initial_tries_fit(*initial_ir),
    ensures
        views(final(err_buf)@) == views(old(err_buf)@) + roots_errors(
            initial_roots(*initial_ir),
            *upstream_roots,
            TrieInitialOrFinal::Initial,
        ),
{
    let local_initial_roots = TrieRoots {
        state_root: trie_root(&initial_ir.state_trie),
        transactions_root: trie_root(&initial_ir.transactions_trie),
        receipts_root: trie_root(&initial_ir.receipts_trie),
    };
    verify_trie_roots_match_local(
        &local_initial_roots,
        upstream_roots,
        TrieInitialOrFinal::Initial,
        err_buf,
    );
}

/// Roots are reported exactly where they differ: each trie at most once, with the local root first.
pub proof fn law_roots_are_reported_where_they_differ(
    local: TrieRoots,
    upstream: TrieRoots,
    when: TrieInitialOrFinal,
)
    ensures
        roots_errors(local, upstream, when).len() == 0 <==> local == upstream,
        roots_errors(local, upstream, when).len() <= 3,
        forall|i: int|
            0 <= i < roots_errors(local, upstream, when).len() ==> {
                &&& (#[trigger] roots_errors(local, upstream, when)[i])
                    matches TraceVerificationErrorView::DecoderTrieRootMismatch(_, w, ours, theirs)
                &&& w == when
                &&& ours != theirs
            },
{
}

} // verus!
