use agave_runtime::transaction_with_meta::writable_accounts;

#[test]
fn keeps_exactly_the_writable_accounts_in_order() {
    let keys = ["a", "b", "c", "d", "e"];
    let flags = [true, false, false, true, true];
    assert_eq!(writable_accounts(&keys, &flags), vec!["a", "d", "e"]);
    assert_eq!(writable_accounts(&keys, &[false; 5]), Vec::<&str>::new());
    let none: [&str; 0] = [];
    assert_eq!(writable_accounts(&none, &[]), Vec::<&str>::new());
}

#[test]
fn works_on_pubkeys() {
    let a = solana_pubkey::Pubkey::new_from_array([1; 32]);
    let b = solana_pubkey::Pubkey::new_from_array([2; 32]);
    let keys = [&a, &b];
    assert_eq!(writable_accounts(&keys, &[false, true]), vec![&b]);
}
