use paninifs_core::{Dhatu, DhatuVector, SemanticFile};

#[test]
fn record_of_empty_content() {
    let file = SemanticFile::from_content("empty.bin".to_string(), b"");
    assert_eq!(file.path, "empty.bin");
    assert_eq!(file.size, 0);
    assert_eq!(file.signature.len(), 16);
    assert!(file.signature.chars().all(|c| c.is_ascii_digit() || ('a'..='f').contains(&c)));
    assert_eq!(file.signature, "26a1e3eaec5b736e");
    assert_eq!(file.top_dhatus.len(), 4);
    let order: Vec<Dhatu> = file.top_dhatus.iter().map(|p| p.0).collect();
    assert_eq!(order, vec![Dhatu::EVAL, Dhatu::DECIDE, Dhatu::ITER, Dhatu::RELATE]);
}

#[test]
fn record_of_hello_is_the_same_each_time() {
    let a = SemanticFile::from_content("a.txt".to_string(), b"hello");
    let b = SemanticFile::from_content("a.txt".to_string(), b"hello");
    assert_eq!(a.path, b.path);
    assert_eq!(a.size, b.size);
    assert_eq!(a.dhatu_vector.weights, b.dhatu_vector.weights);
    assert_eq!(a.signature, b.signature);
    assert_eq!(a.top_dhatus, b.top_dhatus);
    assert_eq!(a.signature, "e186629d6855372f");
    assert_eq!(a.size, 5);
}

#[test]
fn record_holds_what_the_vector_gives() {
    let content = b"The quick brown fox jumps over the lazy dog";
    let file = SemanticFile::from_content("fox.txt".to_string(), content);
    let vector = DhatuVector::from_content(content);
    assert_eq!(file.size, 43);
    assert_eq!(file.dhatu_vector.weights, vector.weights);
    assert_eq!(file.signature, vector.signature());
    assert_eq!(file.signature, "703311a6274fbd89");
    assert_eq!(file.top_dhatus, vector.top_dhatus(4));
    assert_eq!(
        file.top_dhatus,
        vec![
            (Dhatu::MODAL, 0x3fc129daee8796ef),
            (Dhatu::FEEL, 0x3fc06d529b1091fb),
            (Dhatu::EVAL, 0x3fc01ec47849a541),
            (Dhatu::RELATE, 0x3fbf6c0de92b7de5),
        ]
    );
}

#[test]
fn record_does_not_depend_on_the_path() {
    let a = SemanticFile::from_content("one".to_string(), b"same bytes");
    let b = SemanticFile::from_content("dir/two".to_string(), b"same bytes");
    assert_ne!(a.path, b.path);
    assert_eq!(a.dhatu_vector.weights, b.dhatu_vector.weights);
    assert_eq!(a.signature, b.signature);
    assert_eq!(a.top_dhatus, b.top_dhatus);
}

#[test]
fn records_clone() {
    let file = SemanticFile::from_content("a.txt".to_string(), b"hello");
    let copy = file.clone();
    assert_eq!(copy.path, file.path);
    assert_eq!(copy.size, file.size);
    assert_eq!(copy.dhatu_vector.weights, file.dhatu_vector.weights);
    assert_eq!(copy.signature, file.signature);
    assert_eq!(copy.top_dhatus, file.top_dhatus);
}
