use trie_core::error::TrieError;
use trie_core::flatten::encode_trie_rec;
use trie_core::flatten::SourceNode;
use trie_core::node::Node;

fn empty_sources() -> Vec<SourceNode> {
    let mut children = Vec::new();
    for _ in 0..16 {
        children.push(SourceNode::Empty);
    }
    children
}

fn empty_nodes() -> Vec<Node> {
    let mut children = Vec::new();
    for _ in 0..16 {
        children.push(Node::Empty);
    }
    children
}

#[test]
fn empty_flattens_to_empty() {
    assert_eq!(encode_trie_rec(&SourceNode::Empty), Ok(Node::Empty));
}

#[test]
fn leaf_becomes_the_list_of_key_and_value() {
    let leaf = SourceNode::Leaf { key: vec![0x20], value: vec![0x01] };
    assert_eq!(encode_trie_rec(&leaf), Ok(Node::Leaf(vec![0xc2, 0x20, 0x01])));

    let leaf = SourceNode::Leaf { key: vec![0x31, 0x23], value: b"hello".to_vec() };
    assert_eq!(
        encode_trie_rec(&leaf),
        Ok(Node::Leaf(vec![0xc9, 0x82, 0x31, 0x23, 0x85, 0x68, 0x65, 0x6c, 0x6c, 0x6f]))
    );
}

#[test]
fn leaf_of_two_empty_strings() {
    let leaf = SourceNode::Leaf { key: vec![], value: vec![] };
    assert_eq!(encode_trie_rec(&leaf), Ok(Node::Leaf(vec![0xc2, 0x80, 0x80])));
}

#[test]
fn leaf_with_a_long_value_gets_long_prefixes() {
    let value = vec![0xabu8; 60];
    let leaf = SourceNode::Leaf { key: vec![0x20], value: value.clone() };
    let mut expected = vec![0xf8, 63, 0x20, 0xb8, 60];
    expected.extend_from_slice(&value);
    assert_eq!(encode_trie_rec(&leaf), Ok(Node::Leaf(expected)));
}

#[test]
fn branch_counts_its_present_children() {
    let mut children = empty_sources();
    children[2] = SourceNode::Leaf { key: vec![0x20], value: vec![0x01] };
    children[9] = SourceNode::Leaf { key: vec![0x20], value: vec![0x02] };
    let mut inner = empty_sources();
    inner[0] = SourceNode::Leaf { key: vec![0x3a], value: vec![0x03] };
    children[15] = SourceNode::Branch { children: inner };

    let mut flat_inner = empty_nodes();
    flat_inner[0] = Node::Leaf(vec![0xc2, 0x3a, 0x03]);
    let mut flat = empty_nodes();
    flat[2] = Node::Leaf(vec![0xc2, 0x20, 0x01]);
    flat[9] = Node::Leaf(vec![0xc2, 0x20, 0x02]);
    flat[15] = Node::Branch { children_count: 1, children: flat_inner };
    let expected = Node::Branch { children_count: 3, children: flat };

    let node = encode_trie_rec(&SourceNode::Branch { children }).unwrap();
    assert_eq!(node, expected);
    assert!(node.is_well_formed());
}

#[test]
fn branch_of_empty_children_counts_none() {
    let node = encode_trie_rec(&SourceNode::Branch { children: empty_sources() });
    assert_eq!(node, Ok(Node::Branch { children_count: 0, children: empty_nodes() }));
}

#[test]
fn extension_is_refused() {
    assert_eq!(encode_trie_rec(&SourceNode::Extension), Err(TrieError::UnsupportedNode));
    let mut children = empty_sources();
    children[4] = SourceNode::Leaf { key: vec![0x20], value: vec![0x01] };
    children[7] = SourceNode::Extension;
    assert_eq!(
        encode_trie_rec(&SourceNode::Branch { children }),
        Err(TrieError::UnsupportedNode)
    );
}

#[test]
fn hash_node_is_refused() {
    assert_eq!(encode_trie_rec(&SourceNode::Hash), Err(TrieError::UnsupportedNode));
    let mut inner = empty_sources();
    inner[15] = SourceNode::Hash;
    let mut children = empty_sources();
    children[0] = SourceNode::Branch { children: inner };
    assert_eq!(
        encode_trie_rec(&SourceNode::Branch { children }),
        Err(TrieError::UnsupportedNode)
    );
}

#[test]
fn branch_of_the_wrong_width_is_refused() {
    let mut children = empty_sources();
    children.pop();
    assert_eq!(
        encode_trie_rec(&SourceNode::Branch { children }),
        Err(TrieError::UnsupportedNode)
    );
    let mut children = empty_sources();
    children.push(SourceNode::Empty);
    assert_eq!(
        encode_trie_rec(&SourceNode::Branch { children }),
        Err(TrieError::UnsupportedNode)
    );
}

#[test]
fn error_messages() {
    assert_eq!(TrieError::UnsupportedNode.message(), "unexpected node type");
    assert_eq!(TrieError::EmptyNode.message(), "unexpected empty node");
    assert_eq!(TrieError::BadIndex.message(), "arena index out of range");
}
