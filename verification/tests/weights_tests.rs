use trie_core::weights::PrimeTable;

#[test]
fn empty_table_weighs_everything_one() {
    let table = PrimeTable::new();
    assert_eq!(table.get(&"0xabc".to_string()), None);
    assert_eq!(table.weight_of(&"0xabc".to_string()), 1);
    assert_eq!(table.weights_of(&vec![]), Vec::<u128>::new());
}

#[test]
fn monitored_addresses_weigh_their_primes() {
    let mut table = PrimeTable::new();
    table.insert("0xaa".to_string(), 2);
    table.insert("0xbb".to_string(), 3);
    assert_eq!(table.get(&"0xaa".to_string()), Some(2));
    assert_eq!(table.get(&"0xbb".to_string()), Some(3));
    assert_eq!(table.get(&"0xcc".to_string()), None);
    let addresses: Vec<String> =
        vec!["0xbb".to_string(), "0xcc".to_string(), "0xaa".to_string(), "0xbb".to_string()];
    assert_eq!(table.weights_of(&addresses), vec![3, 1, 2, 3]);
}

#[test]
fn a_later_entry_replaces_an_earlier_one() {
    let mut table = PrimeTable::new();
    table.insert("0xaa".to_string(), 2);
    table.insert("0xbb".to_string(), 3);
    table.insert("0xaa".to_string(), 7);
    assert_eq!(table.weight_of(&"0xaa".to_string()), 7);
    assert_eq!(table.weight_of(&"0xbb".to_string()), 3);
}
