//! Content-addressed storage of files as Merkle-Patricia tries of chunks.
//!
//! A file is a trie whose leaves are its chunks, keyed by chunk index. The
//! trie's root is the file's fingerprint. Two realizations are offered: one
//! that lives in memory only, and one that keeps its nodes in a key-value
//! database and buffers changes until they are committed.

pub mod benchmark_proofs;
pub mod bytes;
pub mod codec;
pub mod constants;
pub mod in_memory;
pub mod keyed;
pub mod kv;
pub mod laws;
pub mod node_store;
pub mod overlay;
pub mod rocksdb;
pub mod types;
