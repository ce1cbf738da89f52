//! Flattening a built trie into its recursive form.

use vstd::prelude::*;
use crate::error::TrieError;
use crate::node::count_non_empty;
use crate::node::lemma_count_non_empty_bound;
use crate::node::models_of;
use crate::node::Node;
use crate::node::TrieModel;

verus! {

/// A node of a trie as its builder holds it, with path compaction.
#[derive(Debug, PartialEq, Eq)]
pub enum SourceNode {
    /// No node.
    Empty,
    /// A leaf: the rest of its key in compact encoding, and its value.
    Leaf { key: Vec<u8>, value: Vec<u8> },
    /// A node that stands for a shared stretch of path. The recursive form
    /// has no place for it.
    Extension,
    /// A branch with one child per nibble.
    Branch { children: Vec<SourceNode> },
    /// A node known by its hash only. The recursive form has no place for it.
    Hash,
}

/// The RLP encoding of the list of the two byte strings `key` and `value`, as
/// `rlp::RlpStream` writes it.
pub uninterp spec fn rlp_pair(key: Seq<u8>, value: Seq<u8>) -> Seq<u8>;

/// Opens an `rlp::RlpStream` with `new_list(2)`, appends `key` and `value`
/// with `append`, and takes the bytes with `out`.
///
/// Not proved: that the bytes are a function of the two byte strings alone,
/// named `rlp_pair`. The stream is complete after the second item, so `out`
/// returns.
#[verifier::external_body]
pub(crate) fn rlp_encode_pair(key: &Vec<u8>, value: &Vec<u8>) -> (out: Vec<u8>)
    ensures
        out@ == rlp_pair(key@, value@),
{
    let mut stream = rlp::RlpStream::new_list(2);
    stream.append(key);
    stream.append(value);
    stream.out().to_vec()
}

/// The trie below `source` can be flattened: it holds only empty nodes,
/// leaves, and branches of sixteen children.
pub open spec fn supported(source: SourceNode) -> bool
    decreases source,
{
    match source {
        SourceNode::Empty => true,
        SourceNode::Leaf { .. } => true,
        SourceNode::Branch { children } => {
            &&& children@.len() == 16
            &&& forall|i: int| 0 <= i < children@.len() ==> supported(#[trigger] children@[i])
        },
        SourceNode::Extension => false,
        SourceNode::Hash => false,
    }
}

/// The recursive form of a supported trie: a leaf becomes the encoded list of
/// its key and value, a branch the branch over its flattened children with the
/// count of those that are not empty.
pub open spec fn flattened(source: SourceNode) -> TrieModel
    decreases source, 0nat,
{
    match source {
        SourceNode::Leaf { key, value } => TrieModel::Leaf(rlp_pair(key@, value@)),
        SourceNode::Branch { children } => TrieModel::Branch {
            children_count: count_non_empty(flattened_all(children@)) as u8,
            children: flattened_all(children@),
        },
        _ => TrieModel::Empty,
    }
}

/// The recursive forms of `sources`, in order.
pub open spec fn flattened_all(sources: Seq<SourceNode>) -> Seq<TrieModel>
    decreases sources, 1nat,
{
    Seq::new(
        sources.len(),
        |i: int|
            if 0 <= i < sources.len() {
                flattened(sources[i])
            } else {
                TrieModel::Empty
            },
    )
}

/// The recursive form of a supported trie is well formed: each of its
/// branches has sixteen slots and holds the count of those that are not
/// `Empty`.
pub proof fn lemma_flattened_is_well_formed(source: SourceNode)
    requires
        supported(source),
    ensures
        flattened(source).well_formed(),
    decreases source,
{
    match source {
        SourceNode::Branch { children } => {
            let flat = flattened_all(children@);
            lemma_count_non_empty_bound(flat);
            assert forall|i: int| 0 <= i < flat.len() implies (#[trigger] flat[i]).well_formed() by {
                lemma_flattened_is_well_formed(children@[i]);
            }
        },
        _ => {},
    }
}

/// Flattens the trie below `root`. Fails on the first node that the
/// recursive form has no place for.
pub fn encode_trie_rec(root: &SourceNode) -> (r: Result<Node, TrieError>)
    ensures
        match r {
            Ok(node) => supported(*root) && node@ == flattened(*root) && node@.well_formed(),
            Err(e) => !supported(*root) && e == TrieError::UnsupportedNode,
        },
    decreases root,
{
    match root {
        SourceNode::Empty => Ok(Node::Empty),
        SourceNode::Leaf { key, value } => Ok(Node::Leaf(rlp_encode_pair(key, value))),
        SourceNode::Branch { children } => {
            if children.len() != 16 {
                return Err(TrieError::UnsupportedNode);
            }
            let mut flat: Vec<Node> = Vec::new();
            let mut children_count: u8 = 0;
            let mut i: usize = 0;
            while i < 16
                invariant
                    i <= 16,
                    children@.len() == 16,
                    root is Branch,
                    root->children == *children,
                    flat@.len() == i,
                    children_count == count_non_empty(models_of(flat@)),
                    children_count <= i,
                    forall|j: int| 0 <= j < i ==> supported(#[trigger] children@[j]),
                    forall|j: int|
                        0 <= j < i ==> (#[trigger] flat@[j])@ == flattened(children@[j]),
                    forall|j: int| 0 <= j < i ==> (#[trigger] flat@[j])@.well_formed(),
                decreases 16 - i,
            {
                let child = match encode_trie_rec(&children[i]) {
                    Ok(child) => child,
                    Err(e) => {
                        return Err(e);
                    },
                };
                match child {
                    Node::Empty => {},
                    _ => {
                        children_count = children_count + 1;
                    },
                }
                let ghost before = models_of(flat@);
                flat.push(child);
                assert(models_of(flat@).drop_last() =~= before);
                i = i + 1;
            }
            assert(models_of(flat@) =~= flattened_all(children@));
            Ok(Node::Branch { children_count, children: flat })
        },
        SourceNode::Extension => Err(TrieError::UnsupportedNode),
        SourceNode::Hash => Err(TrieError::UnsupportedNode),
    }
}

} // verus!
