[package]
name = "trie_core"
version = "0.1.0"
edition = "2021"
publish = false

[dependencies]
tiny-keccak = { version = "=2.0.2", features = ["keccak"] }
rlp = "=0.5.2"
cita_trie = "=5.0.1"
hasher = { version = "=0.1.4", features = ["hash-keccak"] }
serde = { version = "=1.0.229", features = ["derive"] }
serde_json = "=1.0.154"
risc0-zkvm = { version = "*", default-features = false, features = ["client"] }
