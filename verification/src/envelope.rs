//! What goes into one run and what comes out of it.

use vstd::prelude::*;
use crate::arena::arena_hash;
use crate::arena::arena_root_hash;
use crate::arena::records_view;
use crate::arena::ArenaTrie;
use crate::big_endian::be_bytes;
use crate::big_endian::u128_to_be_bytes;
use crate::commit::build_product_tree_commitment;
use crate::commit::commitment;
use crate::error::TrieError;
use crate::node::Node;
use crate::product_tree::next_power_of_two;
use crate::product_tree::weight_tree;
use crate::product_tree::wrapped_product;
use crate::root_hash::compute_hash;
use crate::root_hash::node_hash;
use crate::weights::weights_in;
use crate::weights::PrimeTable;

verus! {

/// The receipts trie in recursive form, and the address of every log of every
/// receipt, in receipt-then-log order, as lowercase hex strings.
#[derive(Clone, Debug, PartialEq, Eq)]
pub struct Inputs {
    pub root: Node,
    pub log_addresses: Vec<String>,
}

/// As `Inputs`, with the receipts trie in arena form.
#[derive(Clone, Debug, PartialEq, Eq)]
pub struct ArenaInputs {
    pub trie: ArenaTrie,
    pub log_addresses: Vec<String>,
}

/// The root hash of the trie, the commitment to the product tree, and the
/// value at its root in sixteen big-endian bytes.
#[derive(Clone, Copy, Debug, PartialEq, Eq)]
pub struct Outputs {
    pub root: [u8; 32],
    pub product_tree_hash: [u8; 32],
    pub product_tree_root: [u8; 16],
}

/// What a run gives out for a trie of root hash `root`.
pub open spec fn outputs_for(
    outputs: Outputs,
    root: Seq<u8>,
    table: Map<Seq<char>, u128>,
    log_addresses: Seq<String>,
) -> bool {
    let weights = weights_in(table, log_addresses);
    &&& outputs.root@ == root
    &&& outputs.product_tree_hash@ == commitment(weight_tree(weights))
    &&& outputs.product_tree_root@ == be_bytes(wrapped_product(weights) as nat, 16)
}

/// Builds and commits the product tree over the weights of the log
/// addresses, and puts the results beside the root hash.
fn assemble_outputs(root: [u8; 32], log_addresses: &Vec<String>, table: &PrimeTable) -> (outputs:
    Outputs)
    requires
        next_power_of_two(log_addresses@.len()) <= usize::MAX,
    ensures
        outputs_for(outputs, root@, table@, log_addresses@),
{
    let (product, product_tree_hash) = build_product_tree_commitment(log_addresses, table);
    let product_tree_root = u128_to_be_bytes(product);
    Outputs { root, product_tree_hash, product_tree_root }
}

/// Hashes the trie, and builds and commits the product tree over the weights
/// of the log addresses. A trie with an empty root is refused.
pub fn compute_outputs(inputs: &Inputs, table: &PrimeTable) -> (r: Result<Outputs, TrieError>)
    requires
        next_power_of_two(inputs.log_addresses@.len()) <= usize::MAX,
    ensures
        match r {
            Ok(outputs) => {
                &&& !(inputs.root@ is Empty)
                &&& outputs_for(outputs, node_hash(inputs.root@), table@, inputs.log_addresses@)
            },
            Err(e) => inputs.root@ is Empty && e == TrieError::EmptyNode,
        },
{
    match compute_hash(&inputs.root) {
        Ok(root) => Ok(assemble_outputs(root, &inputs.log_addresses, table)),
        Err(e) => Err(e),
    }
}

/// As `compute_outputs`, for a trie in arena form. An arena that does not
/// decode, or decodes to the empty trie, is refused.
pub fn compute_outputs_of_arena(inputs: &ArenaInputs, table: &PrimeTable) -> (r: Result<
    Outputs,
    TrieError,
>)
    requires
        next_power_of_two(inputs.log_addresses@.len()) <= usize::MAX,
    ensures
        match r {
            Ok(outputs) => {
                let root = arena_hash(records_view(inputs.trie.nodes@), inputs.trie.root as nat);
                &&& root is Ok
                &&& outputs_for(outputs, root->Ok_0, table@, inputs.log_addresses@)
            },
            Err(e) => arena_hash(records_view(inputs.trie.nodes@), inputs.trie.root as nat) == Err::<
                Seq<u8>,
                TrieError,
            >(e),
        },
{
    match arena_root_hash(&inputs.trie) {
        Ok(root) => Ok(assemble_outputs(root, &inputs.log_addresses, table)),
        Err(e) => Err(e),
    }
}

} // verus!
