//! Plain values that the checks work on: hashes, addresses, nibble keys, accounts and roots.

use vstd::prelude::*;

verus! {

/// A 256-bit hash, as its high and its low 128 bits. The order of two hashes is the order of their
/// big-endian bytes.
pub type H256 = (u128, u128);

/// A 256-bit unsigned integer, as its high and its low 128 bits.
pub type U256 = (u128, u128);

/// A 160-bit account address, as its high 32 and its low 128 bits.
pub type Address = (u32, u128);

/// A trie key: the number of nibbles, then the nibbles packed into an integer, the last nibble in
/// the four least significant bits.
pub type Nibbles = (usize, U256);

pub type BlockHeight = u64;

pub type CodeHash = H256;

pub type HashedAccountAddr = H256;

pub type HashedAccountAddrNibbles = Nibbles;

pub type HashedStorageAddr = H256;

pub type HashedStorageAddrNibbles = Nibbles;

pub type StorageAddr = H256;

pub type StorageVal = U256;

pub type TrieRootHash = H256;

pub type TxnIdx = usize;

/// Keccak-256 of no bytes at all: the code hash of an account without code.
pub const EMPTY_CODE_HASH: CodeHash = (
    0xc5d2460186f7233c927e7db2dcc703c0,
    0xe500b653ca82273b7bfad8045d85a470,
);

/// The root of a trie without entries.
pub const EMPTY_TRIE_HASH: TrieRootHash = (
    0x56e81f171bcc55a6ff8345e692c0f86e,
    0x5b48e01b996cadc001622fb5e363b421,
);

/// Whether two 256-bit words are the same.
pub fn words_equal(a: &(u128, u128), b: &(u128, u128)) -> (equal: bool)
    ensures
        equal == (*a == *b),
{
    a.0 == b.0 && a.1 == b.1
}

/// The same items once more.
pub fn copy_items<T: Copy>(items: &Vec<T>) -> (copy: Vec<T>)
    ensures
        copy@ == items@,
{
    let mut copy: Vec<T> = Vec::new();
    for i in 0..items.len()
        invariant
            copy@ == items@.take(i as int),
    {
        copy.push(items[i]);
    }
    copy
}

/// The `n` low bytes of `x`, most significant first.
pub open spec fn be_bytes(x: nat, n: nat) -> Seq<u8>
    decreases n,
{
    if n == 0 {
        Seq::empty()
    } else {
        be_bytes(x / 256, (n - 1) as nat).push((x % 256) as u8)
    }
}

/// The twenty bytes of an address.
pub open spec fn address_bytes(addr: Address) -> Seq<u8> {
    be_bytes(addr.0 as nat, 4) + be_bytes(addr.1 as nat, 16)
}

/// The thirty-two bytes of a hash.
pub open spec fn hash_bytes(hash: H256) -> Seq<u8> {
    be_bytes(hash.0 as nat, 16) + be_bytes(hash.1 as nat, 16)
}

fn push_be_bytes(x: u128, n: usize, out: &mut Vec<u8>)
    ensures
        final(out)@ == old(out)@ + be_bytes(x as nat, n as nat),
    decreases n,
{
    if n > 0 {
        push_be_bytes(x / 256, n - 1, out);
        out.push((x % 256) as u8);
    }
}

/// The bytes of `addr`, most significant first.
pub fn bytes_of_address(addr: &Address) -> (bytes: Vec<u8>)
    ensures
        bytes@ == address_bytes(*addr),
{
    let mut bytes: Vec<u8> = Vec::new();
    push_be_bytes(addr.0 as u128, 4, &mut bytes);
    push_be_bytes(addr.1, 16, &mut bytes);
    bytes
}

/// The bytes of `hash`, most significant first.
pub fn bytes_of_hash(hash: &H256) -> (bytes: Vec<u8>)
    ensures
        bytes@ == hash_bytes(*hash),
{
    let mut bytes: Vec<u8> = Vec::new();
    push_be_bytes(hash.0, 16, &mut bytes);
    push_be_bytes(hash.1, 16, &mut bytes);
    bytes
}

/// Whether the bytes of a trie key fill a hash: an odd nibble count leaves the first half byte zero.
pub open spec fn fills_hash(key: Nibbles) -> bool {
    key.0 == 63 || key.0 == 64
}

/// The hash that the bytes of `key` make up.
pub fn hash_of_nibbles(key: &Nibbles) -> (hash: H256)
    requires
        fills_hash(*key),
    ensures
        hash == key.1,
{
    key.1
}

/// An account as the state trie holds it.
#[derive(Clone, Copy, Debug)]
pub struct AccountRlp {
    pub nonce: U256,
    pub balance: U256,
    pub storage_root: TrieRootHash,
    pub code_hash: CodeHash,
}

/// An account that can be copied and compared.
#[derive(Debug)]
pub struct AccountRlpWrapper(pub AccountRlp);

impl Clone for AccountRlpWrapper {
    fn clone(&self) -> (copy: Self)
        ensures
            copy == *self,
    {
        AccountRlpWrapper(
            AccountRlp {
                nonce: self.0.nonce,
                balance: self.0.balance,
                storage_root: self.0.storage_root,
                code_hash: self.0.code_hash,
            },
        )
    }
}

impl vstd::std_specs::cmp::PartialEqSpecImpl for AccountRlpWrapper {
    open spec fn obeys_eq_spec() -> bool {
        true
    }

    open spec fn eq_spec(&self, other: &Self) -> bool {
        *self == *other
    }
}

impl PartialEq for AccountRlpWrapper {
    fn eq(&self, other: &Self) -> (equal: bool) {
        words_equal(&self.0.balance, &other.0.balance)
            && words_equal(&self.0.nonce, &other.0.nonce)
            && words_equal(&self.0.code_hash, &other.0.code_hash)
            && words_equal(&self.0.storage_root, &other.0.storage_root)
    }
}

impl vstd::std_specs::convert::FromSpecImpl<AccountRlp> for AccountRlpWrapper {
    open spec fn obeys_from_spec() -> bool {
        true
    }

    open spec fn from_spec(v: AccountRlp) -> Self {
        AccountRlpWrapper(v)
    }
}

impl From<AccountRlp> for AccountRlpWrapper {
    fn from(v: AccountRlp) -> (wrapped: Self) {
        AccountRlpWrapper(v)
    }
}

/// The roots of the three tries that a block header commits to.
#[derive(Clone, Copy, Debug)]
pub struct TrieRoots {
    pub state_root: TrieRootHash,
    pub transactions_root: TrieRootHash,
    pub receipts_root: TrieRootHash,
}

/// Which trie an error speaks of.
#[derive(Clone, Copy, Debug, PartialEq, Eq, Structural)]
pub enum TrieType {
    State,
    Storage,
    Receipt,
    Txn,
}

/// Whether an error speaks of the tries before a block or after it.
#[derive(Clone, Copy, Debug, PartialEq, Eq, Structural)]
pub enum TrieInitialOrFinal {
    Initial,
    Final,
}

} // verus!
