//! What holds of every product tree.

use vstd::prelude::*;
use vstd::arithmetic::div_mod::lemma_mul_mod_noop;
use vstd::arithmetic::div_mod::lemma_small_mod;
use vstd::arithmetic::mul::lemma_mul_is_associative;
use crate::product_tree::is_power_of_two;
use crate::product_tree::leaf_nodes;
use crate::product_tree::lemma_next_power_of_two;
use crate::product_tree::next_power_of_two;
use crate::product_tree::padded;
use crate::product_tree::product;
use crate::product_tree::product_tree;
use crate::product_tree::weight_tree;
use crate::product_tree::wrapped_product;
use crate::big_endian::be_bytes;
use crate::commit::commitment;
use crate::keccak::keccak256;
use crate::product_tree::BinaryTree;

verus! {

/// `count` weights, each of them one.
pub open spec fn ones(count: nat) -> Seq<u128> {
    Seq::new(count, |i: int| 1u128)
}

/// The binary logarithm of a power of two.
pub open spec fn log2(n: nat) -> nat
    decreases n,
{
    if n <= 1 {
        0
    } else {
        1 + log2(n / 2)
    }
}

/// The product of a concatenation is the product of the products.
pub proof fn lemma_product_concat(front: Seq<u128>, back: Seq<u128>)
    ensures
        product(front + back) == product(front) * product(back),
    decreases back.len(),
{
    if back.len() == 0 {
        assert(product(front) * 1 == product(front));
    } else {
        let all = front + back;
        let a = product(front);
        let b = product(back.drop_last());
        let c = back.last() as nat;
        assert(all.drop_last() =~= front + back.drop_last());
        lemma_product_concat(front, back.drop_last());
        lemma_mul_is_associative(a as int, b as int, c as int);
    }
}

/// A product of ones is one.
pub proof fn lemma_product_of_ones(count: nat)
    ensures
        product(ones(count)) == 1,
    decreases count,
{
    if count > 0 {
        assert(ones(count).drop_last() =~= ones((count - 1) as nat));
        lemma_product_of_ones((count - 1) as nat);
    }
}

/// Appending any number of weights of one changes neither the product nor
/// the value that wraps it.
pub proof fn lemma_ones_are_neutral(weights: Seq<u128>, count: nat)
    ensures
        product(weights + ones(count)) == product(weights),
        wrapped_product(weights + ones(count)) == wrapped_product(weights),
{
    lemma_product_concat(weights, ones(count));
    lemma_product_of_ones(count);
}

/// Padding to the next power of two keeps every weight in its place, adds
/// only ones, and leaves the product unchanged.
pub proof fn lemma_padding(weights: Seq<u128>)
    ensures
        padded(weights).len() == next_power_of_two(weights.len()),
        is_power_of_two(padded(weights).len()),
        forall|i: int| 0 <= i < weights.len() ==> padded(weights)[i] == weights[i],
        forall|i: int| weights.len() <= i < padded(weights).len() ==> padded(weights)[i] == 1,
        product(padded(weights)) == product(weights),
        wrapped_product(padded(weights)) == wrapped_product(weights),
{
    lemma_next_power_of_two(weights.len());
    let extra = (next_power_of_two(weights.len()) - weights.len()) as nat;
    lemma_ones_are_neutral(weights, extra);
}

/// The tree over the leaves of `weights`, whose number is a power of two,
/// holds the weights at its leaves in their order, holds at each branch the
/// wrapping product of its children, has all its leaves at the same depth,
/// and holds at its root the product of all weights modulo `2^128`.
pub proof fn lemma_product_tree_of_leaves(weights: Seq<u128>)
    requires
        is_power_of_two(weights.len()),
    ensures
        product_tree(leaf_nodes(weights)).leaves() == weights,
        product_tree(leaf_nodes(weights)).well_formed(),
        product_tree(leaf_nodes(weights)).perfect(log2(weights.len())),
        product_tree(leaf_nodes(weights)).spec_value() == wrapped_product(weights),
    decreases weights.len(),
{
    let nodes = leaf_nodes(weights);
    let modulus = (u128::MAX as nat + 1) as nat;
    if weights.len() == 1 {
        assert(product(weights.drop_last()) == 1);
        assert(product(weights) == weights[0] as nat) by {
            assert(1 * (weights[0] as nat) == weights[0] as nat);
        }
        lemma_small_mod(weights[0] as nat, modulus);
    } else {
        let half = (weights.len() / 2) as int;
        let front = weights.take(half);
        let back = weights.skip(half);
        assert(nodes.take(half) =~= leaf_nodes(front));
        assert(nodes.skip(half) =~= leaf_nodes(back));
        lemma_product_tree_of_leaves(front);
        lemma_product_tree_of_leaves(back);
        assert(front + back =~= weights);
        lemma_product_concat(front, back);
        lemma_mul_mod_noop(product(front) as int, product(back) as int, modulus as int);
    }
}

/// The product tree over padded weights holds the product of the weights
/// themselves at its root, and the padded weights at its leaves.
pub proof fn lemma_root_ignores_padding(weights: Seq<u128>)
    ensures
        weight_tree(weights).spec_value() == wrapped_product(weights),
        weight_tree(weights).leaves() == padded(weights),
        weight_tree(weights).well_formed(),
        weight_tree(weights).perfect(log2(next_power_of_two(weights.len()))),
{
    lemma_padding(weights);
    lemma_product_tree_of_leaves(padded(weights));
}

/// Appending any number of weights of one to the weights of a product tree
/// does not change the value at its root.
pub proof fn lemma_appended_ones_keep_root(weights: Seq<u128>, count: nat)
    ensures
        weight_tree(weights + ones(count)).spec_value() == weight_tree(weights).spec_value(),
{
    lemma_root_ignores_padding(weights);
    lemma_root_ignores_padding(weights + ones(count));
    lemma_ones_are_neutral(weights, count);
}

/// The product tree over a single weight is the leaf that holds it, and its
/// commitment is the hash of the weight in sixteen big-endian bytes.
pub proof fn lemma_single_leaf(weight: u128)
    ensures
        padded(seq![weight]) == seq![weight],
        weight_tree(seq![weight]) == (BinaryTree::Leaf { value: weight }),
        commitment(weight_tree(seq![weight])) == keccak256(be_bytes(weight as nat, 16)),
{
}

} // verus!
