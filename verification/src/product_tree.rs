//! The product tree: a perfect binary tree over `u128` weights in which each
//! branch holds the product of its two children, modulo `2^128`.

use vstd::prelude::*;
use vstd::wrapping::u128_specs::wrapping_mul;

verus! {

/// A node of a product tree.
#[derive(Debug, PartialEq, Eq)]
pub enum BinaryTree {
    /// A weight.
    Leaf { value: u128 },
    /// Two subtrees and the product of their values.
    Branch { left: Box<BinaryTree>, right: Box<BinaryTree>, value: u128 },
}

impl BinaryTree {
    /// The value held at the root of this tree.
    pub open spec fn spec_value(self) -> u128 {
        match self {
            BinaryTree::Leaf { value } => value,
            BinaryTree::Branch { value, .. } => value,
        }
    }

    /// The values of the tree in post-order: left subtree, right subtree,
    /// then the node itself.
    pub open spec fn spec_collect(self) -> Seq<u128>
        decreases self,
    {
        match self {
            BinaryTree::Leaf { value } => seq![value],
            BinaryTree::Branch { left, right, value } => left.spec_collect()
                + right.spec_collect() + seq![value],
        }
    }

    /// The weights at the leaves, from left to right.
    pub open spec fn leaves(self) -> Seq<u128>
        decreases self,
    {
        match self {
            BinaryTree::Leaf { value } => seq![value],
            BinaryTree::Branch { left, right, .. } => left.leaves() + right.leaves(),
        }
    }

    /// Every branch holds the wrapping product of the values of its children.
    pub open spec fn well_formed(self) -> bool
        decreases self,
    {
        match self {
            BinaryTree::Leaf { .. } => true,
            BinaryTree::Branch { left, right, value } => {
                &&& left.well_formed()
                &&& right.well_formed()
                &&& value == wrapping_mul(left.spec_value(), right.spec_value())
            },
        }
    }

    /// Every leaf lies exactly `height` branches below the root.
    pub open spec fn perfect(self, height: nat) -> bool
        decreases self,
    {
        match self {
            BinaryTree::Leaf { .. } => height == 0,
            BinaryTree::Branch { left, right, .. } => {
                &&& height > 0
                &&& left.perfect((height - 1) as nat)
                &&& right.perfect((height - 1) as nat)
            },
        }
    }

    /// The value held at the root of this tree.
    pub fn value(&self) -> (v: u128)
        ensures
            v == self.spec_value(),
    {
        match self {
            BinaryTree::Leaf { value } => *value,
            BinaryTree::Branch { value, .. } => *value,
        }
    }

    /// The values of the tree in post-order.
    pub fn collect(&self) -> (values: Vec<u128>)
        ensures
            values@ == self.spec_collect(),
        decreases self,
    {
        match self {
            BinaryTree::Leaf { value } => {
                let mut values: Vec<u128> = Vec::new();
                values.push(*value);
                values
            },
            BinaryTree::Branch { left, right, .. } => {
                let mut values = left.collect();
                let mut right_values = right.collect();
                values.append(&mut right_values);
                values.push(self.value());
                values
            },
        }
    }
}

/// `n` is `2^k` for some `k`.
pub open spec fn is_power_of_two(n: nat) -> bool
    decreases n,
{
    n == 1 || (n >= 2 && n % 2 == 0 && is_power_of_two(n / 2))
}

/// The least power of two that is at least `n`.
pub open spec fn next_power_of_two(n: nat) -> nat
    decreases n,
{
    if n <= 1 {
        1
    } else {
        2 * next_power_of_two((n + 1) / 2)
    }
}

/// The leaf that holds `weight`.
pub open spec fn leaf(weight: u128) -> BinaryTree {
    BinaryTree::Leaf { value: weight }
}

/// `weights` followed by as many ones as it takes to reach the next power of
/// two.
pub open spec fn padded(weights: Seq<u128>) -> Seq<u128> {
    weights + Seq::new(
        (next_power_of_two(weights.len()) - weights.len()) as nat,
        |i: int| 1u128,
    )
}

/// One leaf for each weight.
pub open spec fn leaf_nodes(weights: Seq<u128>) -> Seq<BinaryTree> {
    weights.map_values(|w: u128| leaf(w))
}

/// The branch over `left` and `right`.
pub open spec fn join(left: BinaryTree, right: BinaryTree) -> BinaryTree {
    BinaryTree::Branch {
        left: Box::new(left),
        right: Box::new(right),
        value: wrapping_mul(left.spec_value(), right.spec_value()),
    }
}

/// The tree over `nodes`: a single node is the tree itself, otherwise the
/// tree joins the tree over the first half and the tree over the second half.
pub open spec fn product_tree(nodes: Seq<BinaryTree>) -> BinaryTree
    decreases nodes.len(),
{
    if nodes.len() <= 1 {
        nodes[0]
    } else {
        let half = (nodes.len() / 2) as int;
        join(product_tree(nodes.take(half)), product_tree(nodes.skip(half)))
    }
}

/// The product tree over `weights`, padded with ones to the next power of
/// two.
pub open spec fn weight_tree(weights: Seq<u128>) -> BinaryTree {
    product_tree(leaf_nodes(padded(weights)))
}

/// Adjacent nodes joined two by two, in order.
pub open spec fn pair_up(nodes: Seq<BinaryTree>) -> Seq<BinaryTree> {
    Seq::new(nodes.len() / 2, |i: int| join(nodes[2 * i], nodes[2 * i + 1]))
}

/// The product of `weights` as a natural number; the empty product is one.
pub open spec fn product(weights: Seq<u128>) -> nat
    decreases weights.len(),
{
    if weights.len() == 0 {
        1
    } else {
        product(weights.drop_last()) * (weights.last() as nat)
    }
}

/// The product of `weights` modulo `2^128`.
pub open spec fn wrapped_product(weights: Seq<u128>) -> u128 {
    (product(weights) % (u128::MAX as nat + 1) as nat) as u128
}

/// Between a power of two and its double lies no other power of two.
pub proof fn lemma_power_of_two_gap(p: nat, q: nat)
    requires
        is_power_of_two(p),
        is_power_of_two(q),
        p < q,
    ensures
        2 * p <= q,
    decreases p,
{
    if p > 1 {
        lemma_power_of_two_gap(p / 2, q / 2);
    }
}

/// `next_power_of_two(n)` is a power of two, is at least `n`, and no power of
/// two that is at least `n` is smaller.
pub proof fn lemma_next_power_of_two(n: nat)
    ensures
        is_power_of_two(next_power_of_two(n)),
        n <= next_power_of_two(n),
        n >= 1 ==> next_power_of_two(n) < 2 * n,
        forall|p: nat| is_power_of_two(p) && n <= p ==> next_power_of_two(n) <= p,
        is_power_of_two(n) ==> next_power_of_two(n) == n,
    decreases n,
{
    if n > 1 {
        let half = (n + 1) / 2;
        lemma_next_power_of_two(half);
        assert forall|p: nat| is_power_of_two(p) && n <= p implies next_power_of_two(n) <= p by {
            assert(is_power_of_two(p / 2) && half <= p / 2);
        }
    }
}

/// The least power of two that is at least `n`.
fn round_up_to_power_of_two(n: usize) -> (p: usize)
    requires
        next_power_of_two(n as nat) <= usize::MAX,
    ensures
        p == next_power_of_two(n as nat),
{
    let mut p: usize = 1;
    proof {
        lemma_next_power_of_two(n as nat);
    }
    while p < n
        invariant
            is_power_of_two(p as nat),
            p <= next_power_of_two(n as nat) <= usize::MAX,
            is_power_of_two(next_power_of_two(n as nat)),
            n <= next_power_of_two(n as nat),
            forall|q: nat| is_power_of_two(q) && n <= q ==> next_power_of_two(n as nat) <= q,
        decreases next_power_of_two(n as nat) - p,
    {
        proof {
            lemma_power_of_two_gap(p as nat, next_power_of_two(n as nat));
        }
        p = p * 2;
    }
    p
}

/// Turns weights into leaves and pads them with leaves of weight one up to the
/// next power of two.
pub fn map_leaves(leaves: Vec<u128>) -> (nodes: Vec<BinaryTree>)
    requires
        next_power_of_two(leaves@.len()) <= usize::MAX,
    ensures
        nodes@ == leaf_nodes(padded(leaves@)),
        nodes@.len() == next_power_of_two(leaves@.len()),
{
    let target = round_up_to_power_of_two(leaves.len());
    proof {
        lemma_next_power_of_two(leaves@.len());
    }
    let mut nodes: Vec<BinaryTree> = Vec::new();
    let mut i: usize = 0;
    while i < leaves.len()
        invariant
            i <= leaves@.len(),
            nodes@.len() == i,
            forall|j: int| 0 <= j < i ==> nodes@[j] == leaf(leaves@[j]),
        decreases leaves@.len() - i,
    {
        nodes.push(BinaryTree::Leaf { value: leaves[i] });
        i = i + 1;
    }
    while i < target
        invariant
            leaves@.len() <= i <= target,
            nodes@.len() == i,
            forall|j: int| 0 <= j < leaves@.len() ==> nodes@[j] == leaf(leaves@[j]),
            forall|j: int| leaves@.len() <= j < i ==> nodes@[j] == leaf(1u128),
        decreases target - i,
    {
        nodes.push(BinaryTree::Leaf { value: 1 });
        i = i + 1;
    }
    nodes
}

/// Joining adjacent nodes two by two does not change the tree that is built
/// over them.
pub proof fn lemma_product_tree_of_pairs(nodes: Seq<BinaryTree>)
    requires
        is_power_of_two(nodes.len()),
        nodes.len() >= 2,
    ensures
        product_tree(pair_up(nodes)) == product_tree(nodes),
    decreases nodes.len(),
{
    let half = (nodes.len() / 2) as int;
    let pairs = pair_up(nodes);
    let front = nodes.take(half);
    let back = nodes.skip(half);
    assert(is_power_of_two(half as nat));
    if nodes.len() == 2 {
        assert(product_tree(front) == nodes[0]);
        assert(product_tree(back) == nodes[1]);
    } else {
        let quarter = half / 2;
        assert(pairs.take(quarter) =~= pair_up(front));
        assert(pairs.skip(quarter) =~= pair_up(back));
        lemma_product_tree_of_pairs(front);
        lemma_product_tree_of_pairs(back);
    }
}

/// Builds the product tree over `leaves`, whose number is a power of two:
/// adjacent nodes are joined two by two, level by level, until one is left.
pub fn build_product_tree(leaves: Vec<BinaryTree>) -> (tree: BinaryTree)
    requires
        is_power_of_two(leaves@.len()),
    ensures
        tree == product_tree(leaves@),
    decreases leaves@.len(),
{
    let mut rest = leaves;
    let ghost nodes = rest@;
    let count = rest.len();
    if count == 1 {
        let only = rest.pop();
        return only.unwrap();
    }
    // Join from the back, so that each node is moved out of the vector once.
    let mut reversed: Vec<BinaryTree> = Vec::new();
    while rest.len() >= 2
        invariant
            count == nodes.len(),
            count % 2 == 0,
            rest@.len() % 2 == 0,
            rest@.len() <= count,
            rest@ == nodes.take(rest@.len() as int),
            reversed@.len() == (count - rest@.len()) / 2,
            forall|j: int|
                0 <= j < reversed@.len() ==> reversed@[j] == pair_up(nodes)[count / 2 - 1 - j],
        decreases rest@.len(),
    {
        let right = rest.pop().unwrap();
        let left = rest.pop().unwrap();
        let value = left.value().wrapping_mul(right.value());
        reversed.push(BinaryTree::Branch { left: Box::new(left), right: Box::new(right), value });
    }
    let mut branches: Vec<BinaryTree> = Vec::new();
    while reversed.len() > 0
        invariant
            count == nodes.len(),
            count % 2 == 0,
            reversed@.len() + branches@.len() == count / 2,
            forall|j: int|
                0 <= j < reversed@.len() ==> reversed@[j] == pair_up(nodes)[count / 2 - 1 - j],
            forall|j: int| 0 <= j < branches@.len() ==> branches@[j] == pair_up(nodes)[j],
        decreases reversed@.len(),
    {
        let branch = reversed.pop().unwrap();
        branches.push(branch);
    }
    assert(branches@ =~= pair_up(nodes));
    proof {
        lemma_product_tree_of_pairs(nodes);
    }
    build_product_tree(branches)
}

} // verus!
