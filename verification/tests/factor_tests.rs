use trie_core::factor::factor_of_n;

#[test]
fn factors_of_twenty_four() {
    assert_eq!(factor_of_n(24, 2), 3);
    assert_eq!(factor_of_n(24, 3), 1);
    assert_eq!(factor_of_n(24, 5), 0);
}

#[test]
fn factor_of_one_is_zero() {
    assert_eq!(factor_of_n(1, 2), 0);
    assert_eq!(factor_of_n(1, 255), 0);
}

#[test]
fn factor_of_largest_power_of_two() {
    assert_eq!(factor_of_n(1u128 << 127, 2), 127);
    assert_eq!(factor_of_n(u128::MAX, 2), 0);
    assert_eq!(factor_of_n(u128::MAX, 3), 1);
}
