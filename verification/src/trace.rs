//! Block traces: what each transaction read and wrote, and what that touches over a whole block.

use crate::order::insert_keys;
use crate::types::{
    fills_hash, hash_of_nibbles, Address, CodeHash, HashedAccountAddr, Nibbles, StorageAddr,
    StorageVal,
};
use std::collections::BTreeMap;
use std::collections::BTreeSet;
use vstd::prelude::*;

verus! {

/// What one transaction did to one account.
pub struct TxnTrace {
    /// The storage slots that were read.
    pub storage_read: Option<Vec<StorageAddr>>,
    /// The storage slots that were written, with their new values.
    pub storage_written: Option<BTreeMap<StorageAddr, StorageVal>>,
}

/// What one transaction did to each account that it touched.
pub struct TxnInfo {
    pub traces: BTreeMap<Address, TxnTrace>,
}

/// The trie nodes that one transaction reached.
pub struct NodesUsedByTxn {
    /// For each account whose storage was reached, its hashed address and the hashed slots.
    pub storage_accesses: Vec<(Nibbles, Vec<Nibbles>)>,
}

/// One transaction of a trace that was made ready for checking.
pub struct ProcessedTxnInfo {
    pub nodes_used_by_txn: NodesUsedByTxn,
    pub contract_code_accessed: BTreeMap<CodeHash, Vec<u8>>,
}

/// Whether `txn` reaches the storage of the account that is hashed to `h_addr`.
pub open spec fn reaches_storage_of(txn: ProcessedTxnInfo, h_addr: HashedAccountAddr) -> bool {
    exists|i: int|
        0 <= i < txn.nodes_used_by_txn.storage_accesses@.len() && (
        #[trigger] txn.nodes_used_by_txn.storage_accesses@[i]).0.1 == h_addr
}

/// Whether the keys of all accounts whose storage `txn` reaches make up hashes.
pub open spec fn storage_keys_are_hashes(txn: ProcessedTxnInfo) -> bool {
    forall|i: int|
        0 <= i < txn.nodes_used_by_txn.storage_accesses@.len() ==> fills_hash(
            (#[trigger] txn.nodes_used_by_txn.storage_accesses@[i]).0,
        )
}

/// The hashed addresses of the accounts whose storage the block reaches.
pub open spec fn storage_tries_accessed(traces: Seq<ProcessedTxnInfo>) -> Set<HashedAccountAddr> {
    Set::new(
        |h_addr: HashedAccountAddr|
            exists|t: int|
                0 <= t < traces.len() && #[trigger] reaches_storage_of(traces[t], h_addr),
    )
}

/// The code hashes of the contracts that the block runs.
pub open spec fn contract_code_accessed(traces: Seq<ProcessedTxnInfo>) -> Set<CodeHash> {
    Set::new(
        |code_hash: CodeHash|
            exists|t: int|
                0 <= t < traces.len() && (
                #[trigger] traces[t]).contract_code_accessed@.contains_key(code_hash),
    )
}

/// The addresses of the accounts that the block touches.
pub open spec fn addrs_used(traces: Seq<TxnInfo>) -> Set<Address> {
    Set::new(
        |addr: Address|
            exists|t: int|
                0 <= t < traces.len() && (#[trigger] traces[t]).traces@.contains_key(addr),
    )
}

/// The hashed addresses of the accounts whose storage the block reaches.
pub fn get_all_storage_tries_that_are_accessed(traces: &[ProcessedTxnInfo]) -> (accessed: BTreeSet<
    HashedAccountAddr,
>)
    requires
        forall|t: int| 0 <= t < traces@.len() ==> storage_keys_are_hashes(#[trigger] traces@[t]),
    ensures
        accessed@ == storage_tries_accessed(traces@),
{
    let mut accessed: BTreeSet<HashedAccountAddr> = BTreeSet::new();
    for t in 0..traces.len()
        invariant
            forall|t: int|
                0 <= t < traces@.len() ==> storage_keys_are_hashes(#[trigger] traces@[t]),
            accessed@ == storage_tries_accessed(traces@.take(t as int)),
    {
        let accesses = &traces[t].nodes_used_by_txn.storage_accesses;
        let ghost before = accessed@;
        for i in 0..accesses.len()
            invariant
                0 <= t < traces@.len(),
                accesses@ == traces@[t as int].nodes_used_by_txn.storage_accesses@,
                storage_keys_are_hashes(traces@[t as int]),
                accessed@ == before.union(
                    Set::new(
                        |h_addr: HashedAccountAddr|
                            exists|j: int|
                                0 <= j < i && (#[trigger] accesses@[j]).0.1 == h_addr,
                    ),
                ),
        {
            assert(fills_hash(traces@[t as int].nodes_used_by_txn.storage_accesses@[i as int].0));
            let h_addr = hash_of_nibbles(&accesses[i].0);
            accessed.insert(h_addr);
            assert(accesses@[i as int].0.1 == h_addr);
        }
        proof {
            let now = traces@.take(t + 1);
            assert(now[t as int] == traces@[t as int]);
            assert forall|h_addr: HashedAccountAddr| accessed@.contains(h_addr)
                == storage_tries_accessed(now).contains(h_addr) by {
                if storage_tries_accessed(now).contains(h_addr) {
                    let s = choose|s: int|
                        0 <= s < now.len() && #[trigger] reaches_storage_of(now[s], h_addr);
                    if s < t {
                        assert(reaches_storage_of(traces@.take(t as int)[s], h_addr));
                    }
                }
                if before.contains(h_addr) {
                    let s = choose|s: int|
                        0 <= s < t && #[trigger] reaches_storage_of(
                            traces@.take(t as int)[s],
                            h_addr,
                        );
                    assert(reaches_storage_of(now[s], h_addr));
                }
                if accessed@.contains(h_addr) && !before.contains(h_addr) {
                    assert(reaches_storage_of(now[t as int], h_addr));
                }
            }
        }
    }
    assert(traces@.take(traces@.len() as int) == traces@);
    accessed
}

/// The code hashes of the contracts that the block runs.
pub fn get_all_contract_code_hashes_that_are_accessed(traces: &[ProcessedTxnInfo]) -> (accessed:
    BTreeSet<CodeHash>)
    ensures
        accessed@ == contract_code_accessed(traces@),
{
    let mut accessed: BTreeSet<CodeHash> = BTreeSet::new();
    for t in 0..traces.len()
        invariant
            accessed@ == contract_code_accessed(traces@.take(t as int)),
    {
        let ghost before = accessed@;
        insert_keys(&mut accessed, &traces[t].contract_code_accessed);
        proof {
            let now = traces@.take(t + 1);
            let past = traces@.take(t as int);
            assert forall|code_hash: CodeHash| accessed@.contains(code_hash)
                == contract_code_accessed(now).contains(code_hash) by {
                if contract_code_accessed(now).contains(code_hash) {
                    let s = choose|s: int|
                        0 <= s < now.len() && (
                        #[trigger] now[s]).contract_code_accessed@.contains_key(code_hash);
                    if s < t {
                        assert(past[s].contract_code_accessed@.contains_key(code_hash));
                    }
                }
                if before.contains(code_hash) {
                    let s = choose|s: int|
                        0 <= s < t && (#[trigger] past[s]).contract_code_accessed@.contains_key(
                            code_hash,
                        );
                    assert(now[s].contract_code_accessed@.contains_key(code_hash));
                }
                if accessed@.contains(code_hash) && !before.contains(code_hash) {
                    assert(now[t as int].contract_code_accessed@.contains_key(code_hash));
                }
            }
        }
    }
    assert(traces@.take(traces@.len() as int) == traces@);
    accessed
}

/// The addresses of the accounts that the block touches.
pub fn get_all_unique_addrs_used_in_trace(trace: &[TxnInfo]) -> (used: BTreeSet<Address>)
    ensures
        used@ == addrs_used(trace@),
{
    let mut used: BTreeSet<Address> = BTreeSet::new();
    for t in 0..trace.len()
        invariant
            used@ == addrs_used(trace@.take(t as int)),
    {
        let ghost before = used@;
        insert_keys(&mut used, &trace[t].traces);
        proof {
            let now = trace@.take(t + 1);
            let past = trace@.take(t as int);
            assert forall|addr: Address| used@.contains(addr) == addrs_used(now).contains(
                addr,
            ) by {
                if addrs_used(now).contains(addr) {
                    let s = choose|s: int|
                        0 <= s < now.len() && (#[trigger] now[s]).traces@.contains_key(addr);
                    if s < t {
                        assert(past[s].traces@.contains_key(addr));
                    }
                }
                if before.contains(addr) {
                    let s = choose|s: int|
                        0 <= s < t && (#[trigger] past[s]).traces@.contains_key(addr);
                    assert(now[s].traces@.contains_key(addr));
                }
                if used@.contains(addr) && !before.contains(addr) {
                    assert(now[t as int].traces@.contains_key(addr));
                }
            }
        }
    }
    assert(trace@.take(trace@.len() as int) == trace@);
    used
}

} // verus!
