[package]
name = "trace_verification"
version = "0.1.0"
edition = "2021"
publish = false

[dependencies]
anyhow = "1"
eth_trie_utils = "=0.4.1"
ethereum-types = "0.14.1"
futures = "0.3"
keccak-hash = "0.10.0"
log = "0.4"
reqwest = { version = "0.11", default-features = false, features = ["json", "rustls-tls"] }
rlp = "0.5.2"
serde = { version = "1", features = ["derive"] }
serde_json = "1"
thiserror = "1"
