//! Digests and the Merkle tree built on them.

pub mod hash;
pub mod merkle;

pub use hash::{hash_bytes, hash_pair, hash_u32, HashFunction, HashValue, SimpleHash};
pub use merkle::{MerkleProof, MerkleProofView, MerkleTree, MerkleTreeView};
