use tiny_keccak::Hasher;
use tiny_keccak::Keccak;
use trie_core::commit::build_product_tree_commitment;
use trie_core::commit::commit;
use trie_core::commit::encode_branch_commitment;
use trie_core::factor::factor_of_n;
use trie_core::product_tree::build_product_tree;
use trie_core::product_tree::map_leaves;
use trie_core::product_tree::BinaryTree;
use trie_core::weights::PrimeTable;

const ADDRESS_TWO: &str = "0x4ce5df9033ead87976255a8695592bca3e8cb5cb";
const ADDRESS_THREE: &str = "0xf64e49c1d1d2b1cfa570b1da6481dc8dc95cd093";
const ADDRESS_FIVE: &str = "0x076a3e1500f3110d8f4445d396a3d7ca6d0ca269";

fn keccak(bytes: &[u8]) -> [u8; 32] {
    let mut hasher = Keccak::v256();
    let mut out = [0u8; 32];
    hasher.update(bytes);
    hasher.finalize(&mut out);
    out
}

fn hash_from_hex(text: &str) -> [u8; 32] {
    let digits: Vec<u8> = text.bytes().map(|c| (c as char).to_digit(16).unwrap() as u8).collect();
    let bytes: Vec<u8> = digits.chunks(2).map(|pair| pair[0] * 16 + pair[1]).collect();
    let mut out = [0u8; 32];
    out.copy_from_slice(&bytes);
    out
}

fn table() -> PrimeTable {
    let mut table = PrimeTable::new();
    table.insert(ADDRESS_TWO.to_string(), 2);
    table.insert(ADDRESS_THREE.to_string(), 3);
    table.insert(ADDRESS_FIVE.to_string(), 5);
    table
}

#[test]
fn single_leaf_commits_to_its_value() {
    let expected = hash_from_hex("2e75f6cc5b1a1b9076c75e71565db1d659f4c302914d878a21f75248bb072e49");
    let tree = build_product_tree(map_leaves(vec![7]));
    assert_eq!(commit(&tree), expected);
    let mut bytes = [0u8; 16];
    bytes[15] = 7;
    assert_eq!(commit(&BinaryTree::Leaf { value: 7 }), keccak(&bytes));
}

#[test]
fn tree_of_four_commits_to_shape_and_values() {
    let expected = hash_from_hex("4fdbb9ad7b0ac268f2bac2fcc6a645017295604c045d4a1ba9f8bb9532620217");
    let tree = build_product_tree(map_leaves(vec![2, 3, 5]));
    assert_eq!(commit(&tree), expected);
}

#[test]
fn commitment_depends_on_the_order_of_the_leaves() {
    let one = commit(&build_product_tree(map_leaves(vec![2, 3, 5, 1])));
    let other = commit(&build_product_tree(map_leaves(vec![3, 2, 5, 1])));
    assert_ne!(one, other);
    let padded = commit(&build_product_tree(map_leaves(vec![2, 3, 5, 1, 1])));
    assert_ne!(one, padded);
}

#[test]
fn branch_commitment_uses_the_stored_value() {
    let left = BinaryTree::Leaf { value: 2 };
    let right = BinaryTree::Leaf { value: 3 };
    let left_hash = commit(&left);
    let right_hash = commit(&right);
    let tree = BinaryTree::Branch { left: Box::new(left), right: Box::new(right), value: 99 };
    let mut preimage = Vec::new();
    preimage.extend_from_slice(&left_hash);
    preimage.extend_from_slice(&right_hash);
    preimage.extend_from_slice(&99u128.to_be_bytes());
    assert_eq!(commit(&tree), keccak(&preimage));
}

#[test]
fn branch_preimage_is_eighty_bytes_in_order() {
    let left = [0x11u8; 32];
    let right = [0x22u8; 32];
    let bytes = encode_branch_commitment(&left, &right, 0x0102030405060708090a0b0c0d0e0f10);
    assert_eq!(&bytes[..32], &left);
    assert_eq!(&bytes[32..64], &right);
    assert_eq!(
        &bytes[64..],
        &[1, 2, 3, 4, 5, 6, 7, 8, 9, 10, 11, 12, 13, 14, 15, 16]
    );
}

#[test]
fn monitored_addresses_are_counted_by_their_primes() {
    let log_addresses: Vec<String> = vec![
        ADDRESS_TWO.to_string(),
        "0x0000000000000000000000000000000000000001".to_string(),
        ADDRESS_THREE.to_string(),
        "0x0000000000000000000000000000000000000002".to_string(),
        ADDRESS_TWO.to_string(),
        "0x0000000000000000000000000000000000000003".to_string(),
        "0x0000000000000000000000000000000000000004".to_string(),
        ADDRESS_TWO.to_string(),
        "0x0000000000000000000000000000000000000005".to_string(),
    ];
    let (root, hash) = build_product_tree_commitment(&log_addresses, &table());
    assert_eq!(root, 24);
    assert_eq!(factor_of_n(root, 2), 3);
    assert_eq!(factor_of_n(root, 3), 1);
    assert_eq!(factor_of_n(root, 5), 0);
    let expected = hash_from_hex("f8c0a26030018408748934e87202cf27a43e6037c3bd56442b11700a223cb4ca");
    assert_eq!(hash, expected);
}

#[test]
fn one_log_gives_a_single_leaf() {
    let (root, hash) = build_product_tree_commitment(&vec![ADDRESS_FIVE.to_string()], &table());
    assert_eq!(root, 5);
    let mut bytes = [0u8; 16];
    bytes[15] = 5;
    assert_eq!(hash, keccak(&bytes));
}

#[test]
fn no_logs_give_a_single_leaf_of_one() {
    let (root, hash) = build_product_tree_commitment(&vec![], &table());
    assert_eq!(root, 1);
    let expected = hash_from_hex("bb7fe23a63b718bd884d492b9baaa9d2467699597718f4187205466f9e252d7b");
    assert_eq!(hash, expected);
}

#[test]
fn addresses_are_matched_exactly() {
    let upper = ADDRESS_TWO.to_uppercase();
    let (root, _) = build_product_tree_commitment(&vec![upper, ADDRESS_TWO.to_string()], &table());
    assert_eq!(root, 2);
}
