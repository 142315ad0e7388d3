//! A binary Merkle tree over a fixed byte buffer.
//!
//! The buffer is split into equal-sized chunks, each chunk is hashed into a
//! leaf, and sibling pairs are combined bottom-up until a single root hash
//! remains. All nodes live in one flat array; parent, sibling and child
//! positions are pure index arithmetic. Inclusion proofs list the sibling
//! hash and its orientation at each level, and can be checked against the
//! root alone, without the tree.

pub mod hashing;
pub mod tree;
pub mod verification;

pub use hashing::hash_data;
pub use hashing::hash_pair;
pub use hashing::Node;
pub use tree::MerkleTree;
pub use verification::verify_proof;
