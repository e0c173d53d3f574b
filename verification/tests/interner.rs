use paninifs_core::interner::Interner;

#[test]
fn interner_numbers_strings_in_order() {
    let mut interner = Interner::new();
    assert_eq!(interner.len(), 0);
    assert_eq!(interner.find("a"), None);
    assert_eq!(interner.add("a".to_string()), 0);
    assert_eq!(interner.add("b".to_string()), 1);
    assert_eq!(interner.add("".to_string()), 2);
    assert_eq!(interner.len(), 3);
    assert_eq!(interner.find("a"), Some(0));
    assert_eq!(interner.find("b"), Some(1));
    assert_eq!(interner.find(""), Some(2));
    assert_eq!(interner.find("c"), None);
    assert_eq!(interner.names(), &vec!["a".to_string(), "b".to_string(), "".to_string()]);
}
