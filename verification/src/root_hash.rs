//! The root hash of a trie in recursive form.

use vstd::prelude::*;
use crate::big_endian::be_bytes;
use crate::big_endian::be_bytes_of;
use crate::error::TrieError;
use crate::keccak::keccak256;
use crate::keccak::keccak256_tiny;
use crate::node::count_non_empty;
use crate::node::Node;
use crate::node::TrieModel;
use crate::rlp_length::length_of_length;
use crate::rlp_length::spec_length_of_length;

verus! {

/// What a branch holds for one child: nothing for an empty slot, else the
/// child's hash.
pub type Slot = Option<[u8; 32]>;

/// A slot with its hash as a byte string.
pub open spec fn slot_view(slot: Slot) -> Option<Seq<u8>> {
    match slot {
        Some(hash) => Some(hash@),
        None => None,
    }
}

/// The slots of a branch with each hash as a byte string.
pub open spec fn slots_view(slots: Seq<Slot>) -> Seq<Option<Seq<u8>>> {
    slots.map_values(|slot: Slot| slot_view(slot))
}

/// Payload size that a branch with `children_count` present children
/// announces: 33 bytes for each present child, one byte for each of the other
/// slots, one byte for the value slot.
pub open spec fn branch_payload_size(children_count: u8) -> nat {
    (33 * children_count + 17 - children_count) as nat
}

/// Encoding of one slot: the empty string for an empty slot, else the hash as
/// a string of 32 bytes.
pub open spec fn slot_encoding(slot: Option<Seq<u8>>) -> Seq<u8> {
    match slot {
        None => seq![0x80u8],
        Some(hash) => seq![0xa0u8] + hash,
    }
}

/// Encodings of `slots`, one after the other.
pub open spec fn slots_encoding(slots: Seq<Option<Seq<u8>>>) -> Seq<u8>
    decreases slots.len(),
{
    if slots.len() == 0 {
        Seq::empty()
    } else {
        slots_encoding(slots.drop_last()) + slot_encoding(slots.last())
    }
}

/// First bytes of a branch: the long-list tag, then the announced payload
/// size in as many big-endian bytes as `spec_length_of_length` gives.
pub open spec fn branch_header(children_count: u8) -> Seq<u8> {
    let size = branch_payload_size(children_count);
    let width = spec_length_of_length(size);
    seq![(0xf7 + width) as u8] + be_bytes(size, width)
}

/// The bytes that are hashed for a branch: header, slots in order, and the
/// empty value slot.
pub open spec fn branch_preimage(children_count: u8, slots: Seq<Option<Seq<u8>>>) -> Seq<u8> {
    branch_header(children_count) + slots_encoding(slots) + seq![0x80u8]
}

/// Hash of a node that is not `Empty`.
pub open spec fn node_hash(node: TrieModel) -> Seq<u8>
    decreases node, 0nat,
{
    match node {
        TrieModel::Leaf(bytes) => keccak256(bytes),
        TrieModel::Branch { children_count, children } => keccak256(
            branch_preimage(children_count, child_slots(children)),
        ),
        TrieModel::Empty => Seq::empty(),
    }
}

/// What a parent holds for `node`: nothing for `Empty`, else its hash.
pub open spec fn node_slot(node: TrieModel) -> Option<Seq<u8>>
    decreases node, 1nat,
{
    if node is Empty {
        None
    } else {
        Some(node_hash(node))
    }
}

/// What a branch holds for each of `children`, in order.
pub open spec fn child_slots(children: Seq<TrieModel>) -> Seq<Option<Seq<u8>>>
    decreases children, 2nat,
{
    Seq::new(
        children.len(),
        |i: int|
            if 0 <= i < children.len() {
                node_slot(children[i])
            } else {
                None
            },
    )
}

/// Number of `slots` that hold a hash.
pub open spec fn present_slots(slots: Seq<Option<Seq<u8>>>) -> nat
    decreases slots.len(),
{
    if slots.len() == 0 {
        0
    } else {
        present_slots(slots.drop_last()) + if slots.last() is Some {
            1nat
        } else {
            0nat
        }
    }
}

/// Slots with hashes of 32 bytes take 33 bytes where they hold a hash and
/// one byte where they do not.
pub proof fn lemma_slots_encoding_len(slots: Seq<Option<Seq<u8>>>)
    requires
        forall|i: int| 0 <= i < slots.len() && slots[i] is Some ==> slots[i]->0.len() == 32,
    ensures
        present_slots(slots) <= slots.len(),
        slots_encoding(slots).len() == 33 * present_slots(slots) + (slots.len() - present_slots(
            slots,
        )),
    decreases slots.len(),
{
    if slots.len() > 0 {
        lemma_slots_encoding_len(slots.drop_last());
    }
}

/// A branch holds a hash for each child that is not `Empty`, and for no
/// other.
pub proof fn lemma_present_slots_of_children(children: Seq<TrieModel>)
    ensures
        present_slots(child_slots(children)) == count_non_empty(children),
    decreases children.len(),
{
    if children.len() > 0 {
        assert(child_slots(children).drop_last() =~= child_slots(children.drop_last()));
        lemma_present_slots_of_children(children.drop_last());
    }
}

/// Where `children_count` is the number of the sixteen slots that hold a
/// hash, and each hash has 32 bytes, the payload size that the header
/// announces is the size of what follows the header.
pub proof fn lemma_announced_size_is_true(children_count: u8, slots: Seq<Option<Seq<u8>>>)
    requires
        slots.len() == 16,
        children_count == present_slots(slots),
        forall|i: int| 0 <= i < slots.len() && slots[i] is Some ==> slots[i]->0.len() == 32,
    ensures
        slots_encoding(slots).len() + 1 == branch_payload_size(children_count),
        branch_preimage(children_count, slots).len() == 1 + spec_length_of_length(
            branch_payload_size(children_count),
        ) + branch_payload_size(children_count),
{
    lemma_slots_encoding_len(slots);
}

/// Appends `bytes` to `out`.
fn append_bytes(out: &mut Vec<u8>, bytes: &[u8])
    ensures
        final(out)@ == old(out)@ + bytes@,
{
    let mut i: usize = 0;
    while i < bytes.len()
        invariant
            i <= bytes@.len(),
            out@ == old(out)@ + bytes@.take(i as int),
        decreases bytes@.len() - i,
    {
        out.push(bytes[i]);
        i = i + 1;
        assert(bytes@.take(i as int) =~= bytes@.take(i - 1).push(bytes@[i - 1]));
    }
    assert(bytes@.take(bytes@.len() as int) =~= bytes@);
}

/// Assembles the bytes that are hashed for a branch from the hashes of its
/// children.
pub fn encode_branch(children_count: u8, slots: &Vec<Slot>) -> (out: Vec<u8>)
    ensures
        out@ == branch_preimage(children_count, slots_view(slots@)),
{
    let present: usize = children_count as usize;
    let payload_size: usize = present * 33 + 17 - present;
    let payload_len_len: usize = length_of_length(payload_size);
    let mut out: Vec<u8> = Vec::new();
    out.push(0xf7 + payload_len_len as u8);
    let size_bytes = be_bytes_of(payload_size as u128, payload_len_len);
    append_bytes(&mut out, size_bytes.as_slice());
    let mut i: usize = 0;
    while i < slots.len()
        invariant
            i <= slots@.len(),
            out@ == branch_header(children_count) + slots_encoding(slots_view(slots@).take(i as int)),
        decreases slots@.len() - i,
    {
        let ghost before = slots_view(slots@).take(i as int);
        let ghost after = slots_view(slots@).take(i + 1);
        assert(after.drop_last() =~= before);
        match &slots[i] {
            None => {
                out.push(128);
            },
            Some(hash) => {
                out.push(160);
                append_bytes(&mut out, hash.as_slice());
            },
        }
        i = i + 1;
    }
    assert(slots_view(slots@).take(slots@.len() as int) =~= slots_view(slots@));
    out.push(128);
    out
}

/// The slot that a parent holds for `node`: `None` for `Empty`, else the hash.
fn hash_slot(node: &Node) -> (slot: Slot)
    ensures
        slot_view(slot) == node_slot(node@),
    decreases node,
{
    match node {
        Node::Empty => None,
        Node::Leaf(bytes) => Some(keccak256_tiny(bytes.as_slice())),
        Node::Branch { children_count, children } => {
            let mut slots: Vec<Slot> = Vec::new();
            let mut i: usize = 0;
            while i < children.len()
                invariant
                    i <= children@.len(),
                    node is Branch,
                    node->children == *children,
                    slots@.len() == i,
                    forall|j: int|
                        0 <= j < i ==> slot_view(#[trigger] slots@[j]) == node_slot(children@[j]@),
                decreases children@.len() - i,
            {
                let slot = hash_slot(&children[i]);
                slots.push(slot);
                i = i + 1;
            }
            assert(slots_view(slots@) =~= child_slots(node@->children));
            let preimage = encode_branch(*children_count, &slots);
            Some(keccak256_tiny(preimage.as_slice()))
        },
    }
}

/// Recomputes the hash of the trie rooted at `node`. An empty root has no
/// hash.
pub fn compute_hash(node: &Node) -> (r: Result<[u8; 32], TrieError>)
    ensures
        match r {
            Ok(hash) => !(node@ is Empty) && hash@ == node_hash(node@),
            Err(e) => node@ is Empty && e == TrieError::EmptyNode,
        },
{
    match hash_slot(node) {
        Some(hash) => Ok(hash),
        None => Err(TrieError::EmptyNode),
    }
}

} // verus!
