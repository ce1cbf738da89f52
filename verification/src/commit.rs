//! The commitment to a product tree: a hash that binds its shape and every
//! value in it.

use vstd::prelude::*;
use crate::big_endian::be_bytes;
use crate::big_endian::u128_to_be_bytes;
use crate::keccak::keccak256;
use crate::keccak::keccak256_tiny;
use crate::product_laws::lemma_root_ignores_padding;
use crate::product_tree::build_product_tree;
use crate::product_tree::map_leaves;
use crate::product_tree::next_power_of_two;
use crate::product_tree::weight_tree;
use crate::product_tree::wrapped_product;
use crate::product_tree::BinaryTree;
use crate::product_tree::lemma_next_power_of_two;
use crate::weights::weights_in;
use crate::weights::PrimeTable;

verus! {

/// The bytes that are hashed for a branch: the commitments of its children,
/// left then right, and its value in sixteen big-endian bytes.
pub open spec fn branch_commitment_preimage(left: Seq<u8>, right: Seq<u8>, value: u128) -> Seq<
    u8,
> {
    left + right + be_bytes(value as nat, 16)
}

/// The commitment to `tree`.
pub open spec fn commitment(tree: BinaryTree) -> Seq<u8>
    decreases tree,
{
    match tree {
        BinaryTree::Leaf { value } => keccak256(be_bytes(value as nat, 16)),
        BinaryTree::Branch { left, right, value } => keccak256(
            branch_commitment_preimage(commitment(*left), commitment(*right), value),
        ),
    }
}

/// Lays out the 80 bytes that are hashed for a branch.
pub fn encode_branch_commitment(left: &[u8; 32], right: &[u8; 32], value: u128) -> (bytes: [u8;
    80])
    ensures
        bytes@ == branch_commitment_preimage(left@, right@, value),
{
    let value_bytes = u128_to_be_bytes(value);
    let mut bytes = [0u8; 80];
    let mut i: usize = 0;
    while i < 32
        invariant
            i <= 32,
            forall|j: int| 0 <= j < i ==> bytes@[j] == left@[j],
        decreases 32 - i,
    {
        bytes[i] = left[i];
        i = i + 1;
    }
    while i < 64
        invariant
            32 <= i <= 64,
            forall|j: int| 0 <= j < 32 ==> bytes@[j] == left@[j],
            forall|j: int| 32 <= j < i ==> bytes@[j] == right@[j - 32],
        decreases 64 - i,
    {
        bytes[i] = right[i - 32];
        i = i + 1;
    }
    while i < 80
        invariant
            64 <= i <= 80,
            forall|j: int| 0 <= j < 32 ==> bytes@[j] == left@[j],
            forall|j: int| 32 <= j < 64 ==> bytes@[j] == right@[j - 32],
            forall|j: int| 64 <= j < i ==> bytes@[j] == value_bytes@[j - 64],
        decreases 80 - i,
    {
        bytes[i] = value_bytes[i - 64];
        i = i + 1;
    }
    bytes
}

/// Computes the commitment to `node`, bottom up.
pub fn commit(node: &BinaryTree) -> (hash: [u8; 32])
    ensures
        hash@ == commitment(*node),
    decreases node,
{
    match node {
        BinaryTree::Leaf { value } => {
            let bytes = u128_to_be_bytes(*value);
            keccak256_tiny(bytes.as_slice())
        },
        BinaryTree::Branch { left, right, value } => {
            let left_hash = commit(left);
            let right_hash = commit(right);
            let bytes = encode_branch_commitment(&left_hash, &right_hash, *value);
            keccak256_tiny(bytes.as_slice())
        },
    }
}

/// Weighs each log address, builds the product tree over the padded weights
/// and commits to it. Returns the value at the root of the tree, which is the
/// product of the weights modulo `2^128`, and the commitment.
pub fn build_product_tree_commitment(log_addresses: &Vec<String>, table: &PrimeTable) -> (r: (
    u128,
    [u8; 32],
))
    requires
        next_power_of_two(log_addresses@.len()) <= usize::MAX,
    ensures
        r.0 == wrapped_product(weights_in(table@, log_addresses@)),
        r.0 == weight_tree(weights_in(table@, log_addresses@)).spec_value(),
        r.1@ == commitment(weight_tree(weights_in(table@, log_addresses@))),
{
    let weights = table.weights_of(log_addresses);
    proof {
        lemma_root_ignores_padding(weights@);
        lemma_next_power_of_two(weights@.len());
    }
    let leaves = map_leaves(weights);
    let tree = build_product_tree(leaves);
    let root_value = tree.value();
    let hash = commit(&tree);
    (root_value, hash)
}

} // verus!
