use paninifs_core::Dhatu;

#[test]
fn all_lists_nine_categories_in_declaration_order() {
    assert_eq!(
        Dhatu::ALL,
        [
            Dhatu::RELATE,
            Dhatu::MODAL,
            Dhatu::EXIST,
            Dhatu::EVAL,
            Dhatu::COMM,
            Dhatu::CAUSE,
            Dhatu::ITER,
            Dhatu::DECIDE,
            Dhatu::FEEL,
        ]
    );
}

#[test]
fn as_str_gives_upper_case_names() {
    let names: Vec<&str> = Dhatu::ALL.iter().map(|d| d.as_str()).collect();
    assert_eq!(
        names,
        vec!["RELATE", "MODAL", "EXIST", "EVAL", "COMM", "CAUSE", "ITER", "DECIDE", "FEEL"]
    );
}

#[test]
fn as_bytes_gives_the_bytes_of_the_name() {
    for d in Dhatu::ALL {
        assert_eq!(d.as_bytes(), d.as_str().as_bytes());
    }
    assert_eq!(Dhatu::EVAL.as_bytes(), b"EVAL");
}

#[test]
fn index_follows_declaration_order() {
    for (i, d) in Dhatu::ALL.iter().enumerate() {
        assert_eq!(d.index(), i);
        assert_eq!(Dhatu::from_index(i), *d);
    }
    assert_eq!(Dhatu::RELATE.index(), 0);
    assert_eq!(Dhatu::FEEL.index(), 8);
}

#[test]
fn categories_compare_and_copy() {
    let a = Dhatu::COMM;
    let b = a;
    assert_eq!(a, b);
    assert_ne!(Dhatu::COMM, Dhatu::CAUSE);
    assert_eq!(format!("{:?}", Dhatu::DECIDE), "DECIDE");
}
