use paninifs_core::{Dhatu, DhatuVector, SemanticFile, SemanticIndex};
use std::collections::BTreeSet;

fn record(path: &str, content: &[u8]) -> SemanticFile {
    SemanticFile::from_content(path.to_string(), content)
}

fn bare(path: &str, signature: &str, top: Vec<(Dhatu, u64)>) -> SemanticFile {
    SemanticFile {
        path: path.to_string(),
        size: 0,
        dhatu_vector: DhatuVector { weights: [0; 9] },
        signature: signature.to_string(),
        top_dhatus: top,
    }
}

fn paths(found: &[&SemanticFile]) -> Vec<String> {
    found.iter().map(|f| f.path.clone()).collect()
}

#[test]
fn new_index_holds_nothing() {
    let index = SemanticIndex::new();
    assert!(index.get_file("a.txt").is_none());
    assert!(index.get_file("").is_none());
    assert!(index.find_by_signature("26a1e3eaec5b736e").is_empty());
    for d in Dhatu::ALL {
        assert!(index.find_by_dhatu(d).is_empty());
        assert!(index.paths_by_dhatu(d).is_empty());
    }
    assert!(index.files().is_empty());
    assert!(index.signatures().is_empty());
    assert!(index.paths_by_signature("26a1e3eaec5b736e").is_none());
}

#[test]
fn default_index_holds_nothing() {
    let index = SemanticIndex::default();
    assert!(index.files().is_empty());
    assert!(index.get_file("a.txt").is_none());
}

#[test]
fn added_record_is_found_three_ways() {
    let mut index = SemanticIndex::new();
    index.add_file(record("a.txt", b"hello"));
    let file = index.get_file("a.txt").unwrap();
    assert_eq!(file.path, "a.txt");
    assert_eq!(file.size, 5);
    assert_eq!(file.signature, "e186629d6855372f");
    assert_eq!(paths(&index.find_by_signature("e186629d6855372f")), vec!["a.txt"]);
    assert_eq!(paths(&index.find_by_dhatu(Dhatu::ITER)), vec!["a.txt"]);
    for d in Dhatu::ALL {
        if d != Dhatu::ITER {
            assert!(index.find_by_dhatu(d).is_empty());
        }
    }
    assert!(index.find_by_signature("e186629d6855372e").is_empty());
    assert!(index.get_file("a.tx").is_none());
    assert!(index.get_file("a.txt ").is_none());
}

#[test]
fn same_path_twice_keeps_the_latest_record_and_both_references() {
    let mut index = SemanticIndex::new();
    let first = record("a.txt", b"hello");
    let second = record("a.txt", b"hello world");
    assert_ne!(first.signature, second.signature);
    let (sig1, sig2) = (first.signature.clone(), second.signature.clone());
    index.add_file(first);
    index.add_file(second);
    assert_eq!(index.files().len(), 1);
    let stored = index.get_file("a.txt").unwrap();
    assert_eq!(stored.signature, sig2);
    assert_eq!(stored.size, 11);
    let under_first = index.paths_by_signature(&sig1).unwrap();
    let under_second = index.paths_by_signature(&sig2).unwrap();
    assert_eq!(under_first, &vec!["a.txt".to_string()]);
    assert_eq!(under_second, &vec!["a.txt".to_string()]);
    assert_eq!(under_first.len() + under_second.len(), 2);
    let found = index.find_by_signature(&sig1);
    assert_eq!(found.len(), 1);
    assert_eq!(found[0].signature, sig2);
}

#[test]
fn same_record_twice_is_listed_twice() {
    let mut index = SemanticIndex::new();
    index.add_file(record("a.txt", b"hello"));
    index.add_file(record("a.txt", b"hello"));
    assert_eq!(index.files().len(), 1);
    assert_eq!(paths(&index.find_by_signature("e186629d6855372f")), vec!["a.txt", "a.txt"]);
    assert_eq!(paths(&index.find_by_dhatu(Dhatu::ITER)), vec!["a.txt", "a.txt"]);
    assert_eq!(index.signatures(), &vec!["e186629d6855372f".to_string()]);
}

#[test]
fn stale_reference_resolves_to_the_latest_record() {
    let mut index = SemanticIndex::new();
    index.add_file(bare("p", "s1", vec![(Dhatu::RELATE, 0)]));
    index.add_file(bare("p", "s2", vec![(Dhatu::FEEL, 0)]));
    let under_old = index.find_by_dhatu(Dhatu::RELATE);
    assert_eq!(under_old.len(), 1);
    assert_eq!(under_old[0].signature, "s2");
    assert_eq!(under_old[0].top_dhatus[0].0, Dhatu::FEEL);
    assert_eq!(paths(&index.find_by_dhatu(Dhatu::FEEL)), vec!["p"]);
    assert_eq!(paths(&index.find_by_signature("s1")), vec!["p"]);
    assert_eq!(paths(&index.find_by_signature("s2")), vec!["p"]);
}

#[test]
fn record_without_ranking_is_under_no_category() {
    let mut index = SemanticIndex::new();
    index.add_file(bare("plain", "sig", vec![]));
    assert!(index.get_file("plain").is_some());
    assert_eq!(paths(&index.find_by_signature("sig")), vec!["plain"]);
    for d in Dhatu::ALL {
        assert!(index.find_by_dhatu(d).is_empty());
    }
}

#[test]
fn dominant_category_is_the_first_entry() {
    let mut index = SemanticIndex::new();
    index.add_file(bare("x", "sig", vec![(Dhatu::COMM, 1), (Dhatu::RELATE, 9)]));
    assert_eq!(paths(&index.find_by_dhatu(Dhatu::COMM)), vec!["x"]);
    assert!(index.find_by_dhatu(Dhatu::RELATE).is_empty());
}

#[test]
fn lists_keep_the_order_of_adding() {
    let mut index = SemanticIndex::new();
    for name in ["c", "a", "b", "d"] {
        index.add_file(bare(name, "shared", vec![(Dhatu::EXIST, 0)]));
    }
    assert_eq!(paths(&index.find_by_signature("shared")), vec!["c", "a", "b", "d"]);
    assert_eq!(paths(&index.find_by_dhatu(Dhatu::EXIST)), vec!["c", "a", "b", "d"]);
    let stored: Vec<String> = index.files().iter().map(|f| f.path.clone()).collect();
    assert_eq!(stored, vec!["c", "a", "b", "d"]);
    assert_eq!(index.paths_by_dhatu(Dhatu::EXIST), &vec!["c", "a", "b", "d"]);
}

#[test]
fn distinct_paths_are_all_found() {
    let mut index = SemanticIndex::new();
    let mut added: Vec<SemanticFile> = Vec::new();
    for i in 0..60u32 {
        let path = format!("dir/file-{}.txt", i);
        let content = format!("content number {}", i * 7919);
        let file = record(&path, content.as_bytes());
        added.push(file.clone());
        index.add_file(file);
    }
    added.push(bare("no-ranking", "0000000000000000", vec![]));
    index.add_file(bare("no-ranking", "0000000000000000", vec![]));
    assert_eq!(index.files().len(), added.len());
    for file in &added {
        let found = index.get_file(&file.path).unwrap();
        assert_eq!(found.path, file.path);
        assert_eq!(found.signature, file.signature);
        assert_eq!(found.dhatu_vector.weights, file.dhatu_vector.weights);
    }
    assert!(index.get_file("dir/file-60.txt").is_none());
    assert!(index.get_file("dir/file-1").is_none());
    let mut under_categories: BTreeSet<String> = BTreeSet::new();
    let mut count = 0;
    for d in Dhatu::ALL {
        for file in index.find_by_dhatu(d) {
            assert_eq!(file.top_dhatus[0].0, d);
            under_categories.insert(file.path.clone());
            count += 1;
        }
    }
    let expected: BTreeSet<String> =
        added.iter().filter(|f| !f.top_dhatus.is_empty()).map(|f| f.path.clone()).collect();
    assert_eq!(under_categories, expected);
    assert_eq!(count, 60);
    assert!(!under_categories.contains("no-ranking"));
    for file in &added {
        let same: Vec<String> = added
            .iter()
            .filter(|f| f.signature == file.signature)
            .map(|f| f.path.clone())
            .collect();
        assert_eq!(paths(&index.find_by_signature(&file.signature)), same);
    }
}

#[test]
fn every_listed_path_is_stored() {
    let mut index = SemanticIndex::new();
    for i in 0..40u32 {
        let path = format!("f{}", i % 25);
        index.add_file(record(&path, format!("{}", i).as_bytes()));
    }
    assert_eq!(index.files().len(), 25);
    let mut references = 0;
    for signature in index.signatures() {
        let listed = index.paths_by_signature(signature).unwrap();
        assert!(!listed.is_empty());
        for path in listed {
            assert!(index.get_file(path).is_some());
            references += 1;
        }
        assert_eq!(index.find_by_signature(signature).len(), listed.len());
    }
    assert_eq!(references, 40);
    let mut references = 0;
    for d in Dhatu::ALL {
        let listed = index.paths_by_dhatu(d);
        for path in listed {
            assert!(index.get_file(path).is_some());
            references += 1;
        }
        assert_eq!(index.find_by_dhatu(d).len(), listed.len());
    }
    assert_eq!(references, 40);
}

#[test]
fn signatures_are_listed_once_each() {
    let mut index = SemanticIndex::new();
    index.add_file(bare("a", "s1", vec![]));
    index.add_file(bare("b", "s2", vec![]));
    index.add_file(bare("c", "s1", vec![]));
    assert_eq!(index.signatures(), &vec!["s1".to_string(), "s2".to_string()]);
    assert_eq!(index.paths_by_signature("s1").unwrap(), &vec!["a".to_string(), "c".to_string()]);
    assert_eq!(index.paths_by_signature("s2").unwrap(), &vec!["b".to_string()]);
    assert!(index.paths_by_signature("s3").is_none());
}
