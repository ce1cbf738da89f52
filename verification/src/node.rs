//! The recursive form of a trie.

use vstd::prelude::*;

verus! {

/// A node of a radix-16 trie without path compaction.
#[derive(Debug, PartialEq, Eq)]
pub enum Node {
    /// A branch with one slot per nibble. `children_count` caches the number
    /// of slots that are not `Empty`.
    Branch { children_count: u8, children: Vec<Node> },
    /// A leaf, held as its encoded bytes.
    Leaf(Vec<u8>),
    /// No node.
    Empty,
}

/// What a trie is, apart from how it is stored.
pub enum TrieModel {
    /// A branch: the count it caches, and its children slot by slot.
    Branch { children_count: u8, children: Seq<TrieModel> },
    /// A leaf and its encoded bytes.
    Leaf(Seq<u8>),
    /// No node.
    Empty,
}

/// The model of `node`.
pub open spec fn model_of(node: Node) -> TrieModel
    decreases node, 0nat,
{
    match node {
        Node::Branch { children_count, children } => TrieModel::Branch {
            children_count,
            children: models_of(children@),
        },
        Node::Leaf(bytes) => TrieModel::Leaf(bytes@),
        Node::Empty => TrieModel::Empty,
    }
}

/// The models of `nodes`, in order.
pub open spec fn models_of(nodes: Seq<Node>) -> Seq<TrieModel>
    decreases nodes, 1nat,
{
    Seq::new(
        nodes.len(),
        |i: int|
            if 0 <= i < nodes.len() {
                model_of(nodes[i])
            } else {
                TrieModel::Empty
            },
    )
}

impl View for Node {
    type V = TrieModel;

    open spec fn view(&self) -> TrieModel {
        model_of(*self)
    }
}

/// Number of entries of `children` that are not `Empty`.
pub open spec fn count_non_empty(children: Seq<TrieModel>) -> nat
    decreases children.len(),
{
    if children.len() == 0 {
        0
    } else {
        count_non_empty(children.drop_last()) + if children.last() is Empty {
            0nat
        } else {
            1nat
        }
    }
}

impl TrieModel {
    /// Every branch has sixteen slots and a `children_count` that equals the
    /// number of its slots that are not `Empty`.
    pub open spec fn well_formed(self) -> bool
        decreases self,
    {
        match self {
            TrieModel::Branch { children_count, children } => {
                &&& children.len() == 16
                &&& children_count == count_non_empty(children)
                &&& forall|i: int|
                    0 <= i < children.len() ==> (#[trigger] children[i]).well_formed()
            },
            _ => true,
        }
    }
}

/// Counting one more child adds one for a child that is not `Empty`.
proof fn lemma_count_non_empty_push(children: Seq<TrieModel>, child: TrieModel)
    ensures
        count_non_empty(children.push(child)) == count_non_empty(children) + if child is Empty {
            0nat
        } else {
            1nat
        },
{
    assert(children.push(child).drop_last() =~= children);
}

/// At most as many entries are not `Empty` as there are entries.
pub proof fn lemma_count_non_empty_bound(children: Seq<TrieModel>)
    ensures
        count_non_empty(children) <= children.len(),
    decreases children.len(),
{
    if children.len() > 0 {
        lemma_count_non_empty_bound(children.drop_last());
    }
}

/// A copy of `bytes`.
fn copy_bytes(bytes: &Vec<u8>) -> (copy: Vec<u8>)
    ensures
        copy@ == bytes@,
{
    let mut copy: Vec<u8> = Vec::new();
    let mut i: usize = 0;
    while i < bytes.len()
        invariant
            i <= bytes@.len(),
            copy@ == bytes@.take(i as int),
        decreases bytes@.len() - i,
    {
        copy.push(bytes[i]);
        i = i + 1;
        assert(bytes@.take(i as int) =~= bytes@.take(i - 1).push(bytes@[i - 1]));
    }
    assert(bytes@.take(bytes@.len() as int) =~= bytes@);
    copy
}

impl Clone for Node {
    /// A deep copy: the same trie, stored anew.
    fn clone(&self) -> (copy: Node)
        ensures
            copy@ == self@,
        decreases self,
    {
        match self {
            Node::Branch { children_count, children } => {
                let mut copies: Vec<Node> = Vec::new();
                let mut i: usize = 0;
                while i < children.len()
                    invariant
                        i <= children@.len(),
                        self is Branch,
                        self->children == *children,
                        copies@.len() == i,
                        forall|j: int| 0 <= j < i ==> (#[trigger] copies@[j])@ == children@[j]@,
                    decreases children@.len() - i,
                {
                    let copy = children[i].clone();
                    copies.push(copy);
                    i = i + 1;
                }
                assert(models_of(copies@) =~= models_of(children@));
                Node::Branch { children_count: *children_count, children: copies }
            },
            Node::Leaf(bytes) => Node::Leaf(copy_bytes(bytes)),
            Node::Empty => Node::Empty,
        }
    }
}

impl Default for Node {
    /// The empty node.
    fn default() -> (node: Node)
        ensures
            node@ is Empty,
    {
        Node::Empty
    }
}

impl Node {
    /// Whether every branch below has sixteen slots and a `children_count`
    /// that equals the number of its slots that are not `Empty`.
    pub fn is_well_formed(&self) -> (ok: bool)
        ensures
            ok == self@.well_formed(),
        decreases self,
    {
        match self {
            Node::Branch { children_count, children } => {
                if children.len() != 16 {
                    return false;
                }
                let mut present: u8 = 0;
                let mut i: usize = 0;
                while i < 16
                    invariant
                        i <= 16,
                        children@.len() == 16,
                        self is Branch,
                        self->children == *children,
                        present <= i,
                        present == count_non_empty(models_of(children@).take(i as int)),
                        forall|j: int| 0 <= j < i ==> (#[trigger] children@[j])@.well_formed(),
                    decreases 16 - i,
                {
                    if !children[i].is_well_formed() {
                        assert(!models_of(children@)[i as int].well_formed());
                        return false;
                    }
                    proof {
                        let models = models_of(children@);
                        assert(models.take(i + 1) =~= models.take(i as int).push(models[i as int]));
                        lemma_count_non_empty_push(models.take(i as int), models[i as int]);
                    }
                    match &children[i] {
                        Node::Empty => {},
                        _ => {
                            present = present + 1;
                        },
                    }
                    i = i + 1;
                }
                assert(models_of(children@).take(16) =~= models_of(children@));
                present == *children_count
            },
            _ => true,
        }
    }
}

} // verus!
