//! What a verification can find.

use crate::account_diff::{AccountStateEntryDiff, AccountStateEntryDiffView};
use crate::reverse_hash::HashLookupAttempt;
use crate::types::{
    copy_items, Address, CodeHash, HashedAccountAddrNibbles, Nibbles, StorageAddr,
    TrieInitialOrFinal, TrieRootHash, TrieType, TxnIdx,
};
use vstd::prelude::*;

verus! {

/// A hashed key, with what is known of its origin.
#[derive(Copy, Debug)]
pub struct HashedKeyAndUnhashedLookup<K> {
    pub k: HashLookupAttempt<K>,
    pub hashed: Nibbles,
}

impl<K: Copy> Clone for HashedKeyAndUnhashedLookup<K> {
    fn clone(&self) -> (copy: Self)
        ensures
            copy == *self,
    {
        HashedKeyAndUnhashedLookup { k: self.k, hashed: self.hashed }
    }
}

/// One thing that is wrong with a trace.
#[derive(Debug)]
pub enum TraceVerificationError {
    /// An account names a storage root for which no storage trie was supplied.
    MissingStorageTrieForAccount(
        HashLookupAttempt<Address>,
        HashedAccountAddrNibbles,
        TrieRootHash,
    ),
    /// An account names a code hash for which no contract code was supplied.
    MissingContractCodeForAccount(HashLookupAttempt<Address>, HashedAccountAddrNibbles, CodeHash),
    /// A local root, the first one, is not the root that the upstream node arrived at.
    DecoderTrieRootMismatch(TrieType, TrieInitialOrFinal, TrieRootHash, TrieRootHash),
    /// The state trie before the block has nodes that the trace does not reach.
    UnusedStateNodesInPreImage(Vec<HashedKeyAndUnhashedLookup<Address>>),
    /// The storage tries before the block have nodes that the trace does not reach.
    UnusedStorageNodesInPreImage(Vec<HashedKeyAndUnhashedLookup<StorageAddr>>),
    /// An account is not, after a transaction, what the upstream node reports.
    AccountStateMismatch(TxnIdx, Address, AccountStateEntryDiff),
}

/// A `TraceVerificationError` as a mathematical value.
#[verifier::ext_equal]
pub enum TraceVerificationErrorView {
    MissingStorageTrieForAccount(
        HashLookupAttempt<Address>,
        HashedAccountAddrNibbles,
        TrieRootHash,
    ),
    MissingContractCodeForAccount(HashLookupAttempt<Address>, HashedAccountAddrNibbles, CodeHash),
    DecoderTrieRootMismatch(TrieType, TrieInitialOrFinal, TrieRootHash, TrieRootHash),
    UnusedStateNodesInPreImage(Seq<HashedKeyAndUnhashedLookup<Address>>),
    UnusedStorageNodesInPreImage(Seq<HashedKeyAndUnhashedLookup<StorageAddr>>),
    AccountStateMismatch(TxnIdx, Address, AccountStateEntryDiffView),
}

impl View for TraceVerificationError {
    type V = TraceVerificationErrorView;

    open spec fn view(&self) -> TraceVerificationErrorView {
        match *self {
            TraceVerificationError::MissingStorageTrieForAccount(attempt, h_addr, root) => {
                TraceVerificationErrorView::MissingStorageTrieForAccount(attempt, h_addr, root)
            },
            TraceVerificationError::MissingContractCodeForAccount(attempt, h_addr, code_hash) => {
                TraceVerificationErrorView::MissingContractCodeForAccount(
                    attempt,
                    h_addr,
                    code_hash,
                )
            },
            TraceVerificationError::DecoderTrieRootMismatch(trie_type, when, ours, upstream) => {
                TraceVerificationErrorView::DecoderTrieRootMismatch(
                    trie_type,
                    when,
                    ours,
                    upstream,
                )
            },
            TraceVerificationError::UnusedStateNodesInPreImage(unused) => {
                TraceVerificationErrorView::UnusedStateNodesInPreImage(unused@)
            },
            TraceVerificationError::UnusedStorageNodesInPreImage(unused) => {
                TraceVerificationErrorView::UnusedStorageNodesInPreImage(unused@)
            },
            TraceVerificationError::AccountStateMismatch(txn_idx, addr, diff) => {
                TraceVerificationErrorView::AccountStateMismatch(txn_idx, addr, diff@)
            },
        }
    }
}

/// Errors as mathematical values, in their order.
pub open spec fn views(errs: Seq<TraceVerificationError>) -> Seq<TraceVerificationErrorView> {
    errs.map_values(|err: TraceVerificationError| err@)
}

impl Clone for TraceVerificationError {
    fn clone(&self) -> (copy: Self)
        ensures
            copy@ == self@,
    {
        match self {
            TraceVerificationError::MissingStorageTrieForAccount(attempt, h_addr, root) => {
                TraceVerificationError::MissingStorageTrieForAccount(*attempt, *h_addr, *root)
            },
            TraceVerificationError::MissingContractCodeForAccount(attempt, h_addr, code_hash) => {
                TraceVerificationError::MissingContractCodeForAccount(*attempt, *h_addr, *code_hash)
            },
            TraceVerificationError::DecoderTrieRootMismatch(trie_type, when, ours, upstream) => {
                TraceVerificationError::DecoderTrieRootMismatch(
                    *trie_type,
                    *when,
                    *ours,
                    *upstream,
                )
            },
            TraceVerificationError::UnusedStateNodesInPreImage(unused) => {
                TraceVerificationError::UnusedStateNodesInPreImage(copy_items(unused))
            },
            TraceVerificationError::UnusedStorageNodesInPreImage(unused) => {
                TraceVerificationError::UnusedStorageNodesInPreImage(copy_items(unused))
            },
            TraceVerificationError::AccountStateMismatch(txn_idx, addr, diff) => {
                TraceVerificationError::AccountStateMismatch(*txn_idx, *addr, diff.clone())
            },
        }
    }
}

/// Everything that is wrong with a trace, in the order in which it was found.
#[derive(Debug)]
pub struct TraceVerificationErrors {
    pub errs: Vec<TraceVerificationError>,
}

pub type TraceVerificationResult<T> = Result<T, TraceVerificationErrors>;

/// The outcome of a verification that found `errs`: success exactly where nothing was found.
pub fn conclude(errs: Vec<TraceVerificationError>) -> (outcome: TraceVerificationResult<()>)
    ensures
        match outcome {
            Ok(()) => errs@.len() == 0,
            Err(found) => errs@.len() > 0 && found.errs == errs,
        },
{
    if errs.is_empty() {
        Ok(())
    } else {
        Err(TraceVerificationErrors { errs })
    }
}

/// Moves errors to the end of a buffer.
pub fn append_errors(err_buf: &mut Vec<TraceVerificationError>, errs: Vec<TraceVerificationError>)
    ensures
        views(final(err_buf)@) == views(old(err_buf)@) + views(errs@),
{
    let mut errs = errs;
    err_buf.append(&mut errs);
}

} // verus!
