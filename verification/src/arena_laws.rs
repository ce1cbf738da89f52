//! The arena form and the recursive form stand for the same trie.

use vstd::prelude::*;
use crate::arena::arena_hash;
use crate::arena::arena_index;
use crate::arena::arena_safe;
use crate::arena::arena_records;
use crate::arena::records_view;
use crate::arena::ArenaTrie;
use crate::arena::child_indices;
use crate::arena::children_records;
use crate::arena::decoded;
use crate::arena::decoded_children;
use crate::arena::leaf_record;
use crate::arena::lemma_arena_records_len;
use crate::arena::lemma_children_records_len;
use crate::arena::record_count;
use crate::arena::records_before;
use crate::error::TrieError;
use crate::node::lemma_count_non_empty_bound;
use crate::node::Node;
use crate::node::TrieModel;
use crate::root_hash::node_hash;

verus! {

/// What an arena decodes to is well formed: every branch has sixteen slots
/// and the count of those that are not `Empty`.
pub proof fn lemma_decoded_is_well_formed(records: Seq<Seq<usize>>, index: nat)
    requires
        decoded(records, index) is Ok,
    ensures
        decoded(records, index)->Ok_0.well_formed(),
    decreases index, 17nat,
{
    if index != 0 && index <= records.len() {
        let record = records[index - 1];
        if record.len() == 16 {
            lemma_decoded_children_are_well_formed(records, record, index, 16);
            lemma_count_non_empty_bound(decoded_children(records, record, index, 16)->Ok_0);
        }
    }
}

/// The children that a branch record decodes to are as many as were asked
/// for, and well formed.
proof fn lemma_decoded_children_are_well_formed(
    records: Seq<Seq<usize>>,
    entries: Seq<usize>,
    parent: nat,
    k: nat,
)
    requires
        k <= entries.len(),
        decoded_children(records, entries, parent, k) is Ok,
    ensures
        decoded_children(records, entries, parent, k)->Ok_0.len() == k,
        forall|j: int|
            0 <= j < k ==> (#[trigger] decoded_children(
                records,
                entries,
                parent,
                k,
            )->Ok_0[j]).well_formed(),
    decreases parent, k,
{
    if k > 0 {
        lemma_decoded_children_are_well_formed(records, entries, parent, (k - 1) as nat);
        lemma_decoded_is_well_formed(records, entries[k - 1] as nat);
    }
}

/// `all` holds the records of `model` from place `offset` on.
pub open spec fn holds_at(all: Seq<Seq<usize>>, model: TrieModel, offset: nat) -> bool {
    &&& offset + record_count(model) <= all.len()
    &&& forall|i: int|
        0 <= i < record_count(model) ==> #[trigger] all[offset + i] == arena_records(
            model,
            offset,
        )[i]
}

/// The records of earlier children come before those of later ones.
proof fn lemma_records_before_grows(children: Seq<TrieModel>, j: nat, k: nat)
    requires
        j < k <= children.len(),
    ensures
        records_before(children, j) + record_count(children[j as int]) <= records_before(
            children,
            k,
        ),
    decreases k,
{
    if j + 1 < k {
        lemma_records_before_grows(children, j, (k - 1) as nat);
    }
}

/// Among the records of the first `k` children, those of child `j` stand
/// where the children before it end.
proof fn lemma_child_records_located(
    children: Seq<TrieModel>,
    offset: nat,
    j: nat,
    k: nat,
    i: int,
)
    requires
        j < k <= children.len(),
        0 <= i < record_count(children[j as int]),
    ensures
        records_before(children, j) + i < children_records(children, offset, k).len(),
        children_records(children, offset, k)[records_before(children, j) + i] == arena_records(
            children[j as int],
            offset + records_before(children, j),
        )[i],
    decreases k,
{
    lemma_children_records_len(children, offset, (k - 1) as nat);
    lemma_children_records_len(children, offset, k);
    lemma_arena_records_len(children[k - 1], offset + records_before(children, (k - 1) as nat));
    lemma_records_before_grows(children, j, k);
    if j + 1 < k {
        lemma_records_before_grows(children, j, (k - 1) as nat);
        lemma_child_records_located(children, offset, j, (k - 1) as nat, i);
    }
}

/// An arena that holds a branch holds each of its children where the
/// children before it end.
proof fn lemma_child_held(all: Seq<Seq<usize>>, model: TrieModel, offset: nat, j: nat)
    requires
        model is Branch,
        j < model->children.len(),
        holds_at(all, model, offset),
    ensures
        holds_at(all, model->children[j as int], offset + records_before(model->children, j)),
        offset + records_before(model->children, j) + record_count(model->children[j as int])
            < offset + record_count(model),
{
    let children = model->children;
    let start = records_before(children, j);
    lemma_children_records_len(children, offset, children.len());
    lemma_records_before_grows(children, j, children.len());
    assert forall|i: int| 0 <= i < record_count(children[j as int]) implies #[trigger] all[offset
        + start + i] == arena_records(children[j as int], offset + start)[i] by {
        lemma_child_records_located(children, offset, j, children.len(), i);
        assert(all[offset + (start + i)] == arena_records(model, offset)[start + i]);
    }
}

/// Decoding the records of a well-formed trie without ambiguous leaves gives
/// the trie back, wherever in an arena the records stand.
pub proof fn lemma_decoded_of_records(all: Seq<Seq<usize>>, model: TrieModel, offset: nat)
    requires
        model.well_formed(),
        arena_safe(model),
        holds_at(all, model, offset),
        offset + record_count(model) <= usize::MAX,
    ensures
        decoded(all, arena_index(model, offset)) == Ok::<TrieModel, TrieError>(model),
    decreases model, 17nat,
{
    match model {
        TrieModel::Empty => {},
        TrieModel::Leaf(bytes) => {
            assert(all[offset + 0int] == arena_records(model, offset)[0]);
            let record = leaf_record(bytes);
            assert(record.map_values(|entry: usize| entry as u8) =~= bytes);
        },
        TrieModel::Branch { children_count, children } => {
            let last = records_before(children, children.len());
            lemma_children_records_len(children, offset, children.len());
            assert(all[offset + (last as int)] == child_indices(children, offset));
            lemma_decoded_children_of_records(all, model, offset, 16);
            assert(children.take(16) =~= children);
        },
    }
}

/// Decoding the first `k` entries of the record of a branch gives its first
/// `k` children back.
proof fn lemma_decoded_children_of_records(
    all: Seq<Seq<usize>>,
    model: TrieModel,
    offset: nat,
    k: nat,
)
    requires
        model is Branch,
        k <= 16,
        model.well_formed(),
        arena_safe(model),
        holds_at(all, model, offset),
        offset + record_count(model) <= usize::MAX,
    ensures
        decoded_children(
            all,
            child_indices(model->children, offset),
            offset + record_count(model),
            k,
        ) == Ok::<Seq<TrieModel>, TrieError>(model->children.take(k as int)),
    decreases model, k,
{
    let children = model->children;
    if k == 0 {
        assert(children.take(0) =~= Seq::<TrieModel>::empty());
    } else {
        let j = (k - 1) as nat;
        let child = children[j as int];
        let start = offset + records_before(children, j);
        lemma_decoded_children_of_records(all, model, offset, j);
        lemma_child_held(all, model, offset, j);
        lemma_decoded_of_records(all, child, start);
        assert(children.take(j as int).push(child) =~= children.take(k as int));
    }
}

/// Storing a well-formed trie without ambiguous leaves in arena form and
/// decoding the arena gives the trie back, so the arena form has the root
/// hash of the recursive form.
pub proof fn lemma_arena_round_trip(model: TrieModel)
    requires
        model.well_formed(),
        arena_safe(model),
        record_count(model) <= usize::MAX,
    ensures
        decoded(arena_records(model, 0), arena_index(model, 0)) == Ok::<TrieModel, TrieError>(
            model,
        ),
        arena_hash(arena_records(model, 0), arena_index(model, 0)) == if model is Empty {
            Err::<Seq<u8>, TrieError>(TrieError::EmptyNode)
        } else {
            Ok::<Seq<u8>, TrieError>(node_hash(model))
        },
{
    lemma_arena_records_len(model, 0);
    lemma_decoded_of_records(arena_records(model, 0), model, 0);
}

/// The arena that `to_arena` makes of a well-formed node without ambiguous
/// leaves decodes to that node, and hashing the arena gives what hashing the
/// node gives: the same hash, or the same refusal of an empty trie.
pub proof fn lemma_both_forms_have_one_hash(node: Node, arena: ArenaTrie)
    requires
        node@.well_formed(),
        arena_safe(node@),
        records_view(arena.nodes@) == arena_records(node@, 0),
        arena.root == arena_index(node@, 0),
    ensures
        decoded(records_view(arena.nodes@), arena.root as nat) == Ok::<TrieModel, TrieError>(
            node@,
        ),
        arena_hash(records_view(arena.nodes@), arena.root as nat) == if node@ is Empty {
            Err::<Seq<u8>, TrieError>(TrieError::EmptyNode)
        } else {
            Ok::<Seq<u8>, TrieError>(node_hash(node@))
        },
{
    lemma_arena_records_len(node@, 0);
    lemma_arena_round_trip(node@);
}

} // verus!
