//! Keccak-256 and the RLP reads of accounts and storage values.

use crate::types::{address_bytes, bytes_of_address, bytes_of_hash, hash_bytes};
use crate::types::{AccountRlp, Address, H256, U256};
use vstd::prelude::*;

verus! {

/// What `keccak_hash::keccak` returns for these bytes: their Keccak-256 digest.
pub uninterp spec fn keccak256(bytes: Seq<u8>) -> H256;

/// Calls `keccak_hash::keccak`. The claim is that the digest is a function of the bytes; which
/// digest they have is left unsaid.
#[verifier::external_body]
fn keccak(bytes: &[u8]) -> (digest: H256)
    ensures
        digest == keccak256(bytes@),
{
    let digest = keccak_hash::keccak(bytes).0;
    let (high, low) = digest.split_at(16);
    (
        u128::from_be_bytes(high.try_into().unwrap()),
        u128::from_be_bytes(low.try_into().unwrap()),
    )
}

/// What `rlp::decode` returns for these bytes when a 256-bit integer is asked for; `None` stands for
/// its error.
pub uninterp spec fn rlp_integer(bytes: Seq<u8>) -> Option<U256>;

/// Calls `rlp::decode` for a 256-bit integer. The claim is that the result is a function of the
/// bytes; the encoding itself is left unsaid.
#[verifier::external_body]
fn decode_integer(bytes: &[u8]) -> (value: Option<U256>)
    ensures
        value == rlp_integer(bytes@),
{
    let value: ethereum_types::U256 = rlp::decode(bytes).ok()?;
    let mut word = [0u8; 32];
    value.to_big_endian(&mut word);
    let (high, low) = word.split_at(16);
    Some(
        (
            u128::from_be_bytes(high.try_into().unwrap()),
            u128::from_be_bytes(low.try_into().unwrap()),
        ),
    )
}

/// What `rlp::Rlp::val_at` returns for the item at `index` of the list in these bytes when a 256-bit
/// integer is asked for; `None` stands for its error.
pub uninterp spec fn rlp_integer_at(bytes: Seq<u8>, index: nat) -> Option<U256>;

/// Calls `rlp::Rlp::val_at` for a 256-bit integer. The claim is that the result is a function of the
/// bytes and the index; the encoding itself is left unsaid.
#[verifier::external_body]
fn integer_at(bytes: &[u8], index: usize) -> (value: Option<U256>)
    ensures
        value == rlp_integer_at(bytes@, index as nat),
{
    let value: ethereum_types::U256 = rlp::Rlp::new(bytes).val_at(index).ok()?;
    let mut word = [0u8; 32];
    value.to_big_endian(&mut word);
    let (high, low) = word.split_at(16);
    Some(
        (
            u128::from_be_bytes(high.try_into().unwrap()),
            u128::from_be_bytes(low.try_into().unwrap()),
        ),
    )
}

/// What `rlp::Rlp::val_at` returns for the item at `index` of the list in these bytes when a hash is
/// asked for; `None` stands for its error.
pub uninterp spec fn rlp_hash_at(bytes: Seq<u8>, index: nat) -> Option<H256>;

/// Calls `rlp::Rlp::val_at` for a hash. The claim is that the result is a function of the bytes and
/// the index; the encoding itself is left unsaid.
#[verifier::external_body]
fn hash_at(bytes: &[u8], index: usize) -> (hash: Option<H256>)
    ensures
        hash == rlp_hash_at(bytes@, index as nat),
{
    let hash: ethereum_types::H256 = rlp::Rlp::new(bytes).val_at(index).ok()?;
    let (high, low) = hash.0.split_at(16);
    Some(
        (
            u128::from_be_bytes(high.try_into().unwrap()),
            u128::from_be_bytes(low.try_into().unwrap()),
        ),
    )
}

/// The Keccak-256 digest of `bytes`.
pub fn hash(bytes: &[u8]) -> (digest: H256)
    ensures
        digest == keccak256(bytes@),
{
    keccak(bytes)
}

/// The key under which the state trie holds the account at `addr`.
pub open spec fn hashed_address(addr: Address) -> H256 {
    keccak256(address_bytes(addr))
}

/// The key under which a storage trie holds the slot `slot`.
pub open spec fn hashed_slot(slot: H256) -> H256 {
    keccak256(hash_bytes(slot))
}

/// The key under which the state trie holds the account at `addr`.
pub fn hash_address(addr: &Address) -> (hashed: H256)
    ensures
        hashed == hashed_address(*addr),
{
    let bytes = bytes_of_address(addr);
    hash(bytes.as_slice())
}

/// The key under which a storage trie holds the slot `slot`.
pub fn hash_slot(slot: &H256) -> (hashed: H256)
    ensures
        hashed == hashed_slot(*slot),
{
    let bytes = bytes_of_hash(slot);
    hash(bytes.as_slice())
}

/// The account that a list of nonce, balance, storage root and code hash encodes; `None` where one
/// of the four cannot be read.
pub open spec fn account_of_fields(
    nonce: Option<U256>,
    balance: Option<U256>,
    storage_root: Option<H256>,
    code_hash: Option<H256>,
) -> Option<AccountRlp> {
    match (nonce, balance, storage_root, code_hash) {
        (Some(nonce), Some(balance), Some(storage_root), Some(code_hash)) => Some(
            AccountRlp { nonce, balance, storage_root, code_hash },
        ),
        _ => None,
    }
}

/// The account that these bytes encode.
pub open spec fn rlp_account(bytes: Seq<u8>) -> Option<AccountRlp> {
    account_of_fields(
        rlp_integer_at(bytes, 0),
        rlp_integer_at(bytes, 1),
        rlp_hash_at(bytes, 2),
        rlp_hash_at(bytes, 3),
    )
}

/// Puts an account together from its four fields.
pub fn assemble_account(
    nonce: Option<U256>,
    balance: Option<U256>,
    storage_root: Option<H256>,
    code_hash: Option<H256>,
) -> (account: Option<AccountRlp>)
    ensures
        account == account_of_fields(nonce, balance, storage_root, code_hash),
{
    match (nonce, balance, storage_root, code_hash) {
        (Some(nonce), Some(balance), Some(storage_root), Some(code_hash)) => Some(
            AccountRlp { nonce, balance, storage_root, code_hash },
        ),
        _ => None,
    }
}

/// Reads an account from its encoding.
pub fn decode_account(bytes: &[u8]) -> (account: Option<AccountRlp>)
    ensures
        account == rlp_account(bytes@),
{
    assemble_account(
        integer_at(bytes, 0),
        integer_at(bytes, 1),
        hash_at(bytes, 2),
        hash_at(bytes, 3),
    )
}

/// Reads a storage value from its encoding.
pub fn decode_storage_value(bytes: &[u8]) -> (value: Option<U256>)
    ensures
        value == rlp_integer(bytes@),
{
    decode_integer(bytes)
}

} // verus!
