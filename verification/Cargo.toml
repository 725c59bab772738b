[package]
name = "file_manager"
version = "0.1.0"
edition = "2021"
publish = false

[dependencies]
hash-db = "0.16.0"
kvdb = "0.13.0"
kvdb-rocksdb = "0.19.0"
memory-db = "0.32.0"
parity-scale-codec = "3"
serde_json = "1"
sp-core = "34"
sp-trie = "37"
trie-db = "0.29"

[dev-dependencies]
kvdb-memorydb = "0.13.0"
