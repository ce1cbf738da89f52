//! The arena form of a trie: a flat sequence of records in which a branch
//! names its children by their place in the sequence.

use vstd::prelude::*;
use crate::arena_laws::lemma_decoded_is_well_formed;
use crate::error::TrieError;
use crate::flatten::encode_trie_rec;
use crate::flatten::flattened;
use crate::flatten::supported;
use crate::flatten::SourceNode;
use crate::node::count_non_empty;
use crate::node::models_of;
use crate::node::Node;
use crate::node::TrieModel;
use crate::root_hash::compute_hash;
use crate::root_hash::node_hash;

verus! {

/// A trie as a sequence of records. A record of exactly sixteen entries is a
/// branch and holds the index of each child; any other record is a leaf and
/// holds its bytes. Indices count from one; zero stands for no node. Every
/// record comes after the records of its descendants.
#[derive(Clone, Debug, PartialEq, Eq)]
pub struct ArenaTrie {
    pub nodes: Vec<Vec<usize>>,
    pub root: usize,
}

/// The records as sequences of entries.
pub open spec fn records_view(records: Seq<Vec<usize>>) -> Seq<Seq<usize>> {
    records.map_values(|record: Vec<usize>| record@)
}

/// The record of a leaf: one entry for each byte.
pub open spec fn leaf_record(bytes: Seq<u8>) -> Seq<usize> {
    bytes.map_values(|byte: u8| byte as usize)
}

/// Number of records that `model` takes: one for each node that is not
/// `Empty`.
pub open spec fn record_count(model: TrieModel) -> nat
    decreases model, 0nat,
{
    match model {
        TrieModel::Empty => 0,
        TrieModel::Leaf(_) => 1,
        TrieModel::Branch { children, .. } => records_before(children, children.len()) + 1,
    }
}

/// Number of records that the first `k` of `children` take.
pub open spec fn records_before(children: Seq<TrieModel>, k: nat) -> nat
    decreases children, k,
{
    if k == 0 || k > children.len() {
        0
    } else {
        records_before(children, (k - 1) as nat) + record_count(children[k - 1])
    }
}

/// The index of `model` once its records follow `offset` earlier records:
/// zero for `Empty`, else the place of its own record, which is its last.
pub open spec fn arena_index(model: TrieModel, offset: nat) -> nat {
    if model is Empty {
        0
    } else {
        offset + record_count(model)
    }
}

/// The records of `model` in post-order, as they follow `offset` earlier
/// records.
pub open spec fn arena_records(model: TrieModel, offset: nat) -> Seq<Seq<usize>>
    decreases model, 0nat,
{
    match model {
        TrieModel::Empty => Seq::empty(),
        TrieModel::Leaf(bytes) => seq![leaf_record(bytes)],
        TrieModel::Branch { children, .. } => children_records(
            children,
            offset,
            children.len(),
        ).push(child_indices(children, offset)),
    }
}

/// The records of the first `k` of `children`, child after child.
pub open spec fn children_records(children: Seq<TrieModel>, offset: nat, k: nat) -> Seq<
    Seq<usize>,
>
    decreases children, k,
{
    if k == 0 || k > children.len() {
        Seq::empty()
    } else {
        children_records(children, offset, (k - 1) as nat) + arena_records(
            children[k - 1],
            offset + records_before(children, (k - 1) as nat),
        )
    }
}

/// The record of a branch: the index of each of `children`.
pub open spec fn child_indices(children: Seq<TrieModel>, offset: nat) -> Seq<usize> {
    Seq::new(
        children.len(),
        |i: int| arena_index(children[i], offset + records_before(children, i as nat)) as usize,
    )
}

/// A model takes as many records as `record_count` says.
pub proof fn lemma_arena_records_len(model: TrieModel, offset: nat)
    ensures
        arena_records(model, offset).len() == record_count(model),
    decreases model, 0nat,
{
    match model {
        TrieModel::Branch { children, .. } => {
            lemma_children_records_len(children, offset, children.len());
        },
        _ => {},
    }
}

/// The first `k` children take as many records as `records_before` says.
pub proof fn lemma_children_records_len(children: Seq<TrieModel>, offset: nat, k: nat)
    ensures
        children_records(children, offset, k).len() == records_before(children, k),
    decreases children, k,
{
    if 0 < k <= children.len() {
        lemma_children_records_len(children, offset, (k - 1) as nat);
        lemma_arena_records_len(
            children[k - 1],
            offset + records_before(children, (k - 1) as nat),
        );
    }
}

/// Appends the records of `node` to `records` in post-order and returns the
/// index of `node`: zero for `Empty`, else the place of its record, counted
/// from one.
fn append_records(node: &Node, records: &mut Vec<Vec<usize>>) -> (index: usize)
    ensures
        records_view(final(records)@) == records_view(old(records)@) + arena_records(
            node@,
            old(records)@.len(),
        ),
        index == arena_index(node@, old(records)@.len()),
    decreases node,
{
    let ghost offset = records@.len();
    let ghost before = records_view(records@);
    match node {
        Node::Empty => 0,
        Node::Leaf(bytes) => {
            let mut record: Vec<usize> = Vec::new();
            let mut i: usize = 0;
            while i < bytes.len()
                invariant
                    i <= bytes@.len(),
                    record@.len() == i,
                    forall|j: int| 0 <= j < i ==> record@[j] == bytes@[j] as usize,
                decreases bytes@.len() - i,
            {
                record.push(bytes[i] as usize);
                i = i + 1;
            }
            assert(record@ =~= leaf_record(bytes@));
            records.push(record);
            records.len()
        },
        Node::Branch { children, .. } => {
            let ghost models = node@->children;
            let mut indices: Vec<usize> = Vec::new();
            let mut i: usize = 0;
            while i < children.len()
                invariant
                    i <= children@.len(),
                    node is Branch,
                    node->children == *children,
                    models == node@->children,
                    models.len() == children@.len(),
                    forall|j: int| 0 <= j < children@.len() ==> models[j] == children@[j]@,
                    before.len() == offset,
                    records_view(records@) == before + children_records(models, offset, i as nat),
                    records@.len() == offset + records_before(models, i as nat),
                    indices@.len() == i,
                    forall|j: int|
                        0 <= j < i ==> indices@[j] as nat == arena_index(
                            models[j],
                            offset + records_before(models, j as nat),
                        ),
                decreases children@.len() - i,
            {
                let ghost so_far = records_view(records@);
                let index = append_records(&children[i], records);
                proof {
                    lemma_arena_records_len(models[i as int], so_far.len());
                    assert(records_view(records@) =~= before + children_records(
                        models,
                        offset,
                        (i + 1) as nat,
                    ));
                }
                indices.push(index);
                i = i + 1;
            }
            let ghost so_far = records_view(records@);
            assert(indices@ =~= child_indices(models, offset));
            proof {
                lemma_children_records_len(models, offset, models.len());
            }
            records.push(indices);
            assert(records_view(records@) =~= so_far.push(child_indices(models, offset)));
            records.len()
        },
    }
}

/// Stores the trie below `node` in arena form.
pub fn to_arena(node: &Node) -> (arena: ArenaTrie)
    ensures
        records_view(arena.nodes@) == arena_records(node@, 0),
        arena.root == arena_index(node@, 0),
{
    let mut nodes: Vec<Vec<usize>> = Vec::new();
    let root = append_records(node, &mut nodes);
    ArenaTrie { nodes, root }
}

/// Flattens the trie below `root` into arena form. Fails on the first node
/// that the arena form has no place for.
pub fn encode_trie_arena(root: &SourceNode) -> (r: Result<ArenaTrie, TrieError>)
    ensures
        match r {
            Ok(arena) => {
                &&& supported(*root)
                &&& records_view(arena.nodes@) == arena_records(flattened(*root), 0)
                &&& arena.root == arena_index(flattened(*root), 0)
            },
            Err(e) => !supported(*root) && e == TrieError::UnsupportedNode,
        },
{
    match encode_trie_rec(root) {
        Ok(node) => Ok(to_arena(&node)),
        Err(e) => Err(e),
    }
}

/// No leaf below has an encoding of exactly sixteen bytes, which the arena
/// form would take for a branch.
pub open spec fn arena_safe(model: TrieModel) -> bool
    decreases model,
{
    match model {
        TrieModel::Leaf(bytes) => bytes.len() != 16,
        TrieModel::Branch { children, .. } => forall|i: int|
            0 <= i < children.len() ==> arena_safe(#[trigger] children[i]),
        TrieModel::Empty => true,
    }
}

/// Whether no leaf below `node` has exactly sixteen bytes, so that the arena
/// form of `node` can be told from that of another trie.
pub fn is_arena_safe(node: &Node) -> (ok: bool)
    ensures
        ok == arena_safe(node@),
    decreases node,
{
    match node {
        Node::Empty => true,
        Node::Leaf(bytes) => bytes.len() != 16,
        Node::Branch { children, .. } => {
            let mut i: usize = 0;
            while i < children.len()
                invariant
                    i <= children@.len(),
                    node is Branch,
                    node->children == *children,
                    node@ is Branch,
                    node@->children == models_of(children@),
                    forall|j: int| 0 <= j < i ==> arena_safe(#[trigger] models_of(children@)[j]),
                decreases children@.len() - i,
            {
                if !is_arena_safe(&children[i]) {
                    assert(!arena_safe(models_of(children@)[i as int]));
                    return false;
                }
                i = i + 1;
            }
            true
        },
    }
}

/// Every entry of `record` is a byte.
pub open spec fn all_bytes(record: Seq<usize>) -> bool {
    forall|i: int| 0 <= i < record.len() ==> record[i] < 256
}

/// The trie that index `index` of `records` stands for. Index zero stands
/// for the empty trie. An index beyond the arena is refused, and so is a
/// child that does not precede its parent, and a leaf with an entry that is
/// not a byte; of several faults the first in post-order is reported.
pub open spec fn decoded(records: Seq<Seq<usize>>, index: nat) -> Result<TrieModel, TrieError>
    decreases index, 17nat,
{
    if index == 0 {
        Ok(TrieModel::Empty)
    } else if index > records.len() {
        Err(TrieError::BadIndex)
    } else {
        let record = records[index - 1];
        if record.len() == 16 {
            match decoded_children(records, record, index, 16) {
                Ok(children) => Ok(
                    TrieModel::Branch {
                        children_count: count_non_empty(children) as u8,
                        children,
                    },
                ),
                Err(e) => Err(e),
            }
        } else if all_bytes(record) {
            Ok(TrieModel::Leaf(record.map_values(|entry: usize| entry as u8)))
        } else {
            Err(TrieError::BadLeaf)
        }
    }
}

/// The tries that the first `k` entries of the branch record `entries` stand
/// for, where the branch has index `parent`.
pub open spec fn decoded_children(
    records: Seq<Seq<usize>>,
    entries: Seq<usize>,
    parent: nat,
    k: nat,
) -> Result<Seq<TrieModel>, TrieError>
    decreases parent, k,
{
    if k == 0 || k > entries.len() {
        Ok(Seq::empty())
    } else {
        match decoded_children(records, entries, parent, (k - 1) as nat) {
            Err(e) => Err(e),
            Ok(children) => {
                let child = entries[k - 1] as nat;
                if child >= parent {
                    Err(TrieError::BadIndex)
                } else {
                    match decoded(records, child) {
                        Err(e) => Err(e),
                        Ok(model) => Ok(children.push(model)),
                    }
                }
            },
        }
    }
}

/// The root hash that an arena stands for: that of the trie it decodes to.
pub open spec fn arena_hash(records: Seq<Seq<usize>>, root: nat) -> Result<Seq<u8>, TrieError> {
    match decoded(records, root) {
        Err(e) => Err(e),
        Ok(model) => if model is Empty {
            Err(TrieError::EmptyNode)
        } else {
            Ok(node_hash(model))
        },
    }
}

/// A fault among the first children of a branch is the fault of the branch.
proof fn lemma_fault_persists(
    records: Seq<Seq<usize>>,
    entries: Seq<usize>,
    parent: nat,
    k: nat,
    n: nat,
)
    requires
        k <= n <= entries.len(),
        decoded_children(records, entries, parent, k) is Err,
    ensures
        decoded_children(records, entries, parent, n) == decoded_children(
            records,
            entries,
            parent,
            k,
        ),
    decreases n,
{
    if k < n {
        lemma_fault_persists(records, entries, parent, k, (n - 1) as nat);
    }
}

/// Rebuilds the node at `index` of `records`.
fn decode_at(records: &Vec<Vec<usize>>, index: usize) -> (r: Result<Node, TrieError>)
    ensures
        match r {
            Ok(node) => decoded(records_view(records@), index as nat) == Ok::<
                TrieModel,
                TrieError,
            >(node@),
            Err(e) => decoded(records_view(records@), index as nat) == Err::<TrieModel, TrieError>(
                e,
            ),
        },
    decreases index,
{
    if index == 0 {
        return Ok(Node::Empty);
    }
    if index > records.len() {
        return Err(TrieError::BadIndex);
    }
    let record = &records[index - 1];
    let ghost all = records_view(records@);
    if record.len() == 16 {
        let mut children: Vec<Node> = Vec::new();
        let mut children_count: u8 = 0;
        let mut i: usize = 0;
        assert(models_of(children@) =~= Seq::<TrieModel>::empty());
        while i < 16
            invariant
                i <= 16,
                record@.len() == 16,
                0 < index <= records@.len(),
                all == records_view(records@),
                all[index - 1] == record@,
                children@.len() == i,
                children_count <= i,
                children_count == count_non_empty(models_of(children@)),
                decoded_children(all, record@, index as nat, i as nat) == Ok::<
                    Seq<TrieModel>,
                    TrieError,
                >(models_of(children@)),
            decreases 16 - i,
        {
            let child_index = record[i];
            if child_index >= index {
                proof {
                    lemma_fault_persists(all, record@, index as nat, (i + 1) as nat, 16);
                }
                return Err(TrieError::BadIndex);
            }
            let child = match decode_at(records, child_index) {
                Ok(child) => child,
                Err(e) => {
                    proof {
                        lemma_fault_persists(all, record@, index as nat, (i + 1) as nat, 16);
                    }
                    return Err(e);
                },
            };
            match child {
                Node::Empty => {},
                _ => {
                    children_count = children_count + 1;
                },
            }
            let ghost before = models_of(children@);
            children.push(child);
            assert(models_of(children@) =~= before.push(child@));
            assert(models_of(children@).drop_last() =~= before);
            i = i + 1;
        }
        Ok(Node::Branch { children_count, children })
    } else {
        let mut bytes: Vec<u8> = Vec::new();
        let mut i: usize = 0;
        while i < record.len()
            invariant
                i <= record@.len(),
                record@.len() != 16,
                0 < index <= records@.len(),
                all == records_view(records@),
                all[index - 1] == record@,
                bytes@.len() == i,
                forall|j: int| 0 <= j < i ==> record@[j] < 256,
                forall|j: int| 0 <= j < i ==> bytes@[j] == record@[j] as u8,
            decreases record@.len() - i,
        {
            if record[i] >= 256 {
                return Err(TrieError::BadLeaf);
            }
            bytes.push(record[i] as u8);
            i = i + 1;
        }
        assert(bytes@ =~= record@.map_values(|entry: usize| entry as u8));
        Ok(Node::Leaf(bytes))
    }
}

/// Rebuilds the recursive form of the trie that `arena` holds.
pub fn from_arena(arena: &ArenaTrie) -> (r: Result<Node, TrieError>)
    ensures
        match r {
            Ok(node) => node@.well_formed() && decoded(
                records_view(arena.nodes@),
                arena.root as nat,
            ) == Ok::<TrieModel, TrieError>(node@),
            Err(e) => decoded(records_view(arena.nodes@), arena.root as nat) == Err::<
                TrieModel,
                TrieError,
            >(e),
        },
{
    proof {
        if decoded(records_view(arena.nodes@), arena.root as nat) is Ok {
            lemma_decoded_is_well_formed(records_view(arena.nodes@), arena.root as nat);
        }
    }
    decode_at(&arena.nodes, arena.root)
}

/// Recomputes the root hash of the trie that `arena` holds: the hash of the
/// trie it decodes to.
pub fn arena_root_hash(arena: &ArenaTrie) -> (r: Result<[u8; 32], TrieError>)
    ensures
        match r {
            Ok(hash) => arena_hash(records_view(arena.nodes@), arena.root as nat) == Ok::<
                Seq<u8>,
                TrieError,
            >(hash@),
            Err(e) => arena_hash(records_view(arena.nodes@), arena.root as nat) == Err::<
                Seq<u8>,
                TrieError,
            >(e),
        },
{
    match from_arena(arena) {
        Ok(node) => compute_hash(&node),
        Err(e) => Err(e),
    }
}

} // verus!
