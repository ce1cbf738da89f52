use trie_core::arena::arena_root_hash;
use trie_core::arena::encode_trie_arena;
use trie_core::arena::from_arena;
use trie_core::arena::is_arena_safe;
use trie_core::arena::to_arena;
use trie_core::arena::ArenaTrie;
use trie_core::envelope::compute_outputs;
use trie_core::envelope::compute_outputs_of_arena;
use trie_core::envelope::ArenaInputs;
use trie_core::envelope::Inputs;
use trie_core::error::TrieError;
use trie_core::flatten::encode_trie_rec;
use trie_core::flatten::SourceNode;
use trie_core::node::Node;
use trie_core::root_hash::compute_hash;
use trie_core::weights::PrimeTable;

fn empty_children() -> Vec<Node> {
    let mut children = Vec::new();
    for _ in 0..16 {
        children.push(Node::Empty);
    }
    children
}

fn branch_of_two() -> Node {
    let mut children = empty_children();
    children[0] = Node::Leaf(vec![0xc2, 0x80, 0x80]);
    children[1] = Node::Leaf(vec![0xc2, 0x20, 0x01]);
    Node::Branch { children_count: 2, children }
}

fn nested() -> Node {
    let mut children = empty_children();
    children[5] = branch_of_two();
    children[15] = Node::Leaf(vec![0xc2, 0x3a, 0x07]);
    Node::Branch { children_count: 2, children }
}

fn indices(pairs: &[(usize, usize)]) -> Vec<usize> {
    let mut record = vec![0usize; 16];
    for (slot, index) in pairs {
        record[*slot] = *index;
    }
    record
}

#[test]
fn empty_trie_takes_no_record() {
    let arena = to_arena(&Node::Empty);
    assert_eq!(arena, ArenaTrie { nodes: vec![], root: 0 });
    assert_eq!(from_arena(&arena), Ok(Node::Empty));
    assert_eq!(arena_root_hash(&arena), Err(TrieError::EmptyNode));
}

#[test]
fn leaf_takes_one_record_of_its_bytes() {
    let arena = to_arena(&Node::Leaf(vec![0xc2, 0x80, 0x80]));
    assert_eq!(arena, ArenaTrie { nodes: vec![vec![0xc2, 0x80, 0x80]], root: 1 });
}

#[test]
fn records_come_in_post_order() {
    let arena = to_arena(&branch_of_two());
    let expected = ArenaTrie {
        nodes: vec![vec![0xc2, 0x80, 0x80], vec![0xc2, 0x20, 0x01], indices(&[(0, 1), (1, 2)])],
        root: 3,
    };
    assert_eq!(arena, expected);

    let arena = to_arena(&nested());
    let expected = ArenaTrie {
        nodes: vec![
            vec![0xc2, 0x80, 0x80],
            vec![0xc2, 0x20, 0x01],
            indices(&[(0, 1), (1, 2)]),
            vec![0xc2, 0x3a, 0x07],
            indices(&[(5, 3), (15, 4)]),
        ],
        root: 5,
    };
    assert_eq!(arena, expected);
}

#[test]
fn arena_decoding_undoes_encoding() {
    for node in [Node::Empty, Node::Leaf(vec![0xc2, 0x80, 0x80]), branch_of_two(), nested()] {
        assert_eq!(from_arena(&to_arena(&node)), Ok(node));
    }
}

#[test]
fn both_forms_have_the_same_root_hash() {
    for node in [Node::Leaf(vec![0xc2, 0x80, 0x80]), branch_of_two(), nested()] {
        assert_eq!(arena_root_hash(&to_arena(&node)), compute_hash(&node));
    }
}

#[test]
fn source_flattens_to_the_same_arena_either_way() {
    let mut inner = Vec::new();
    let mut outer = Vec::new();
    for _ in 0..16 {
        inner.push(SourceNode::Empty);
        outer.push(SourceNode::Empty);
    }
    inner[3] = SourceNode::Leaf { key: vec![0x20], value: vec![0x01] };
    outer[0] = SourceNode::Branch { children: inner };
    outer[8] = SourceNode::Leaf { key: vec![0x31, 0x23], value: b"hello".to_vec() };
    let source = SourceNode::Branch { children: outer };

    let arena = encode_trie_arena(&source).unwrap();
    let node = encode_trie_rec(&source).unwrap();
    assert_eq!(arena, to_arena(&node));
    assert_eq!(arena.root, 4);
    assert_eq!(arena.nodes[0], vec![0xc2, 0x20, 0x01]);
    assert_eq!(arena.nodes[1], indices(&[(3, 1)]));
    assert_eq!(arena.nodes[3], indices(&[(0, 2), (8, 3)]));
    assert_eq!(arena_root_hash(&arena), compute_hash(&node));
}

#[test]
fn unsupported_source_gives_no_arena() {
    assert_eq!(encode_trie_arena(&SourceNode::Extension), Err(TrieError::UnsupportedNode));
    assert_eq!(encode_trie_arena(&SourceNode::Hash), Err(TrieError::UnsupportedNode));
}

#[test]
fn root_beyond_the_arena_is_refused() {
    let arena = ArenaTrie { nodes: vec![vec![0xc2, 0x80, 0x80]], root: 2 };
    assert_eq!(from_arena(&arena), Err(TrieError::BadIndex));
    assert_eq!(arena_root_hash(&arena), Err(TrieError::BadIndex));
}

#[test]
fn child_that_does_not_precede_its_parent_is_refused() {
    let own = ArenaTrie { nodes: vec![indices(&[(0, 1)])], root: 1 };
    assert_eq!(from_arena(&own), Err(TrieError::BadIndex));
    let later = ArenaTrie { nodes: vec![indices(&[(4, 2)]), vec![0xc2, 0x80, 0x80]], root: 1 };
    assert_eq!(from_arena(&later), Err(TrieError::BadIndex));
}

#[test]
fn leaf_entry_above_a_byte_is_refused() {
    let arena = ArenaTrie { nodes: vec![vec![0xc2, 0x100, 0x80]], root: 1 };
    assert_eq!(from_arena(&arena), Err(TrieError::BadLeaf));
    assert_eq!(arena_root_hash(&arena), Err(TrieError::BadLeaf));
    assert_eq!(TrieError::BadLeaf.message(), "arena leaf holds more than bytes");
}

#[test]
fn first_fault_in_post_order_is_reported() {
    let arena = ArenaTrie {
        nodes: vec![vec![0x1ff], indices(&[(0, 1), (1, 9)])],
        root: 2,
    };
    assert_eq!(from_arena(&arena), Err(TrieError::BadLeaf));
    let arena = ArenaTrie {
        nodes: vec![vec![0x1ff], indices(&[(0, 9), (1, 1)])],
        root: 2,
    };
    assert_eq!(from_arena(&arena), Err(TrieError::BadIndex));
}

#[test]
fn shared_child_is_decoded_once_for_each_slot() {
    let arena = ArenaTrie { nodes: vec![vec![0xc2, 0x80, 0x80], indices(&[(0, 1), (7, 1)])], root: 2 };
    let mut children = empty_children();
    children[0] = Node::Leaf(vec![0xc2, 0x80, 0x80]);
    children[7] = Node::Leaf(vec![0xc2, 0x80, 0x80]);
    assert_eq!(from_arena(&arena), Ok(Node::Branch { children_count: 2, children }));
}

#[test]
fn leaf_of_sixteen_bytes_is_taken_for_a_branch() {
    let zeros = Node::Leaf(vec![0u8; 16]);
    assert!(!is_arena_safe(&zeros));
    let arena = to_arena(&zeros);
    assert_eq!(
        from_arena(&arena),
        Ok(Node::Branch { children_count: 0, children: empty_children() })
    );
    assert_ne!(arena_root_hash(&arena), compute_hash(&zeros));

    let mut bytes = vec![0xcf, 0x20, 0x8d];
    bytes.extend_from_slice(&[0x11; 13]);
    let arena = to_arena(&Node::Leaf(bytes));
    assert_eq!(from_arena(&arena), Err(TrieError::BadIndex));
}

#[test]
fn ambiguous_leaves_are_found_below_the_root() {
    assert!(is_arena_safe(&Node::Empty));
    assert!(is_arena_safe(&nested()));
    assert!(is_arena_safe(&Node::Leaf(vec![0u8; 15])));
    assert!(is_arena_safe(&Node::Leaf(vec![0u8; 17])));
    let mut inner = empty_children();
    inner[9] = Node::Leaf(vec![0x11; 16]);
    let mut outer = empty_children();
    outer[2] = Node::Branch { children_count: 1, children: inner };
    assert!(!is_arena_safe(&Node::Branch { children_count: 1, children: outer }));
}

#[test]
fn cached_count_is_not_stored_in_the_arena() {
    let mut children = empty_children();
    children[0] = Node::Leaf(vec![0xc2, 0x80, 0x80]);
    let bad = Node::Branch { children_count: 5, children };
    let decoded = from_arena(&to_arena(&bad)).unwrap();
    assert!(decoded.is_well_formed());
    assert_ne!(decoded, bad);
}

#[test]
fn outputs_do_not_depend_on_the_form() {
    let mut table = PrimeTable::new();
    table.insert("0xaa".to_string(), 2);
    let log_addresses = vec!["0xaa".to_string(), "0xdd".to_string(), "0xaa".to_string()];
    let inputs = Inputs { root: nested(), log_addresses: log_addresses.clone() };
    let arena_inputs = ArenaInputs { trie: to_arena(&nested()), log_addresses };
    let outputs = compute_outputs(&inputs, &table).unwrap();
    assert_eq!(compute_outputs_of_arena(&arena_inputs, &table), Ok(outputs));
    assert_eq!(outputs.product_tree_root, 4u128.to_be_bytes());

    let empty = ArenaInputs { trie: to_arena(&Node::Empty), log_addresses: vec![] };
    assert_eq!(compute_outputs_of_arena(&empty, &table), Err(TrieError::EmptyNode));
}
