//! Deterministic hashing of receipt tries and product-tree commitments.
//!
//! The crate recomputes the root hash of a radix-16 Merkle-Patricia trie from
//! a pointer-free representation, and commits to a perfect binary tree of
//! `u128` weights whose root is the product of all its leaves. The
//! multiplicity of a prime in that root tells how many leaves hold it.
//!
//! * `flatten` turns a built trie into the recursive form of `node`, and
//!   `arena` stores that form as a flat sequence of records and reads it back.
//! * `root_hash` hashes the recursive form, with the length prefixes of
//!   `rlp_length` and the byte strings of `big_endian`.
//! * `weights` weighs log addresses, `product_tree` builds the tree over the
//!   weights, `commit` commits to it, and `factor` reads a count off its root.
//! * `envelope` puts one run together.
//! * `arena_laws`, `product_laws` and `factor_laws` state what holds of all
//!   of these.

pub mod arena;
pub mod arena_laws;
pub mod big_endian;
pub mod commit;
pub mod envelope;
pub mod error;
pub mod factor;
pub mod factor_laws;
pub mod flatten;
pub mod keccak;
pub mod node;
pub mod product_laws;
pub mod product_tree;
pub mod rlp_length;
pub mod root_hash;
pub mod weights;

pub use crate::envelope::Inputs;
pub use crate::envelope::Outputs;
pub use crate::factor::factor_of_n;
pub use crate::node::Node;
pub use crate::product_tree::build_product_tree;
pub use crate::product_tree::map_leaves;
pub use crate::product_tree::BinaryTree;
pub use crate::rlp_length::length_of_length;
