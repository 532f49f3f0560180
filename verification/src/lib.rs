//! Verification of block traces: that everything a block needs came with its trace, and that the
//! local results are those of an upstream node.

pub mod account_diff;
pub mod after_txn;
pub mod block;
pub mod codec;
pub mod errors;
pub mod final_accounts;
pub mod laws;
pub mod messages;
pub mod order;
pub mod prestate;
pub mod replay;
pub mod reverse_hash;
pub mod roots;
pub mod rpc;
pub mod storage_roots;
pub mod text;
pub mod trace;
pub mod trie;
pub mod txn_state;
pub mod types;
pub mod unused;
