# trace_verification

Checks the trace of an Ethereum block before it is proved.

- Before the block: every account whose code the block runs must come with that code, and every
  account whose storage the block reaches must come with its storage trie. The block must reach every
  leaf of the tries.
- After each transaction: every account whose code the transaction runs must have known code, and
  every account whose storage the block reaches must have its storage trie.
- Against an upstream node, where there is one: the roots after the block must be those of the node.
  Where they are not, the roots before the block are held against the block before it, and the
  transactions are replayed upstream to find the first account that differs. In either case every
  account that the trace uses is held against the node, as far as the local state tells it: nonce,
  balance, code hash and storage.

`src/` is the library, verified with Verus. `app/` asks the upstream node over JSON-RPC and drives the
library. `tests/` runs the library.

| module | what it holds |
| --- | --- |
| `types` | hashes, addresses, trie keys, accounts and roots as plain values |
| `codec` | Keccak-256 and RLP reads |
| `trie` | partial tries: shape, entries, values, roots |
| `order` | the keys of maps and the members of sets in ascending order |
| `trace` | what each transaction read and wrote |
| `reverse_hash` | from hashed addresses and slots back to those of the trace |
| `prestate`, `unused` | the checks of the tries before a block |
| `after_txn` | the checks of the tries after each transaction |
| `replay`, `account_diff` | accounts as upstream reports them, held against local ones |
| `txn_state` | the local state after each transaction, held against upstream |
| `final_accounts` | the accounts after a block, held against upstream |
| `roots`, `storage_roots` | trie roots, held against upstream |
| `rpc` | the checks against an upstream node, as a machine from answer to answer |
| `block` | the verification of a block as a whole |
| `errors`, `text`, `messages` | what can be found, and what is said of it |

The functions that call `eth_trie_utils`, `keccak-hash` and `rlp` are trusted; each says above it what
is claimed of the call.
