use tiny_keccak::Hasher;
use tiny_keccak::Keccak;
use trie_core::error::TrieError;
use trie_core::node::Node;
use trie_core::root_hash::compute_hash;
use trie_core::root_hash::encode_branch;

fn keccak(bytes: &[u8]) -> [u8; 32] {
    let mut hasher = Keccak::v256();
    let mut out = [0u8; 32];
    hasher.update(bytes);
    hasher.finalize(&mut out);
    out
}

fn from_hex(text: &str) -> Vec<u8> {
    let digits: Vec<u8> = text.bytes().map(|c| (c as char).to_digit(16).unwrap() as u8).collect();
    digits.chunks(2).map(|pair| pair[0] * 16 + pair[1]).collect()
}

fn hash_from_hex(text: &str) -> [u8; 32] {
    let mut out = [0u8; 32];
    out.copy_from_slice(&from_hex(text));
    out
}

fn empty_children() -> Vec<Node> {
    let mut children = Vec::new();
    for _ in 0..16 {
        children.push(Node::Empty);
    }
    children
}

fn leaf_a() -> Node {
    Node::Leaf(vec![0xc2, 0x80, 0x80])
}

fn leaf_b() -> Node {
    Node::Leaf(vec![0xc2, 0x20, 0x01])
}

fn branch_of_two(children_count: u8) -> Node {
    let mut children = empty_children();
    children[0] = leaf_a();
    children[1] = leaf_b();
    Node::Branch { children_count, children }
}

#[test]
fn leaf_hash_is_stable() {
    let expected = hash_from_hex("3947d64d838a72a40582ad1ae01c10fd900939d1eab56ee373ea5e2bd4e2cfb3");
    assert_eq!(compute_hash(&leaf_a()), Ok(expected));
}

#[test]
fn leaf_hash_is_the_keccak_of_its_bytes() {
    let bytes = vec![0xc9, 0x82, 0x31, 0x23, 0x85, 0x68, 0x65, 0x6c, 0x6c, 0x6f];
    assert_eq!(compute_hash(&Node::Leaf(bytes.clone())), Ok(keccak(&bytes)));
    assert_ne!(compute_hash(&Node::Leaf(bytes.clone())).unwrap().to_vec(), bytes);
}

#[test]
fn empty_root_is_refused() {
    assert_eq!(compute_hash(&Node::Empty), Err(TrieError::EmptyNode));
    assert_eq!(compute_hash(&Node::default()), Err(TrieError::EmptyNode));
}

#[test]
fn branch_without_children() {
    let node = Node::Branch { children_count: 0, children: empty_children() };
    let expected = hash_from_hex("c94698bd530679ed7af4c8e1155988ffab8263fae5b349f8322d8e12eb6659e4");
    assert_eq!(compute_hash(&node), Ok(expected));
}

#[test]
fn branch_of_two_leaves() {
    let expected = hash_from_hex("c1e3af49229a6ef854756f5441e33758e937bf3b1274fd0db3c65c4b928c9e67");
    assert_eq!(compute_hash(&branch_of_two(2)), Ok(expected));
}

#[test]
fn branch_of_sixteen_leaves_has_a_two_byte_length() {
    let mut children = Vec::new();
    for i in 0..16u8 {
        children.push(Node::Leaf(vec![0xc2, 0x20, i]));
    }
    let node = Node::Branch { children_count: 16, children };
    let expected = hash_from_hex("1e074b1d1167a29a8e4f4cd6bea62011e1b9587b405b4c506d402b20f5d0eb34");
    assert_eq!(compute_hash(&node), Ok(expected));
}

#[test]
fn nested_branches() {
    let mut children = empty_children();
    children[5] = branch_of_two(2);
    children[15] = leaf_a();
    let node = Node::Branch { children_count: 2, children };
    let expected = hash_from_hex("a1e2410201598482ee4a3e3aa4113002392b2b5d8c9c8430531c75578ee63a50");
    assert_eq!(compute_hash(&node), Ok(expected));
}

#[test]
fn hashing_twice_gives_the_same_hash() {
    let node = branch_of_two(2);
    let copy = node.clone();
    assert_eq!(node, copy);
    assert_eq!(compute_hash(&node), compute_hash(&node));
    assert_eq!(compute_hash(&node), compute_hash(&copy));
}

#[test]
fn mismatched_count_is_detected_and_changes_the_hash() {
    let good = branch_of_two(2);
    let bad = branch_of_two(3);
    assert!(good.is_well_formed());
    assert!(!bad.is_well_formed());
    let expected = hash_from_hex("091b5f67cb8d14a55fcb4e857e19cda5075e79dc1a4d52d7aa4d52260638991d");
    assert_eq!(compute_hash(&bad), Ok(expected));
    assert_ne!(compute_hash(&bad), compute_hash(&good));
}

#[test]
fn well_formedness_looks_below_the_root() {
    let mut children = empty_children();
    children[3] = branch_of_two(1);
    let outer = Node::Branch { children_count: 1, children };
    assert!(!outer.is_well_formed());
    let mut short = empty_children();
    short.pop();
    assert!(!Node::Branch { children_count: 0, children: short }.is_well_formed());
    assert!(Node::Empty.is_well_formed());
    assert!(leaf_a().is_well_formed());
}

#[test]
fn encode_branch_lays_out_header_slots_and_value() {
    let mut slots: Vec<Option<[u8; 32]>> = vec![None; 16];
    let bytes = encode_branch(0, &slots);
    assert_eq!(bytes, from_hex("f8118080808080808080808080808080808080"));

    slots[0] = Some(keccak(&[0xc2, 0x80, 0x80]));
    slots[1] = Some(keccak(&[0xc2, 0x20, 0x01]));
    let bytes = encode_branch(2, &slots);
    assert_eq!(
        bytes,
        from_hex(
            "f851a03947d64d838a72a40582ad1ae01c10fd900939d1eab56ee373ea5e2bd4e2cfb3a0ce8c4b060e961e285a1c2d6af956fae96986f946102f23b71506524eea9e2450808080808080808080808080808080"
        )
    );
}

#[test]
fn encode_branch_announces_the_cached_count() {
    let slots: Vec<Option<[u8; 32]>> = vec![Some([7u8; 32]); 16];
    let bytes = encode_branch(16, &slots);
    assert_eq!(bytes.len(), 3 + 529);
    assert_eq!(&bytes[..4], &[0xf9, 0x02, 0x11, 0xa0]);
    assert_eq!(bytes[bytes.len() - 1], 0x80);
    let bytes = encode_branch(1, &slots);
    assert_eq!(&bytes[..3], &[0xf8, 49, 0xa0]);
    let bytes = encode_branch(255, &slots);
    assert_eq!(&bytes[..4], &[0xf9, 0x1f, 0xf1, 0xa0]);
}
