//! An append-only Merkle tree over `u64` keys, hashed with SHA-256.
//!
//! Leaves are kept in insertion order. Every level above the leaves is the
//! pairwise fold of the level below it, a lone trailing digest being paired
//! with itself, and the single digest of the topmost level is the root.

pub mod digest;
pub mod facts;
pub mod hex;
pub mod level;
pub mod tree;

pub use digest::{hash_internal, hash_key};
pub use hex::hash_to_hex;
pub use tree::MerkleTree;
