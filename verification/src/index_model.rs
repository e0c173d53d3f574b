//! The index as plain values: what adding a record does to it, what a lookup
//! finds in it, and what holds after records are added.

use crate::dhatu::Dhatu;
use crate::file::SemanticFileView;
use vstd::prelude::*;

verus! {

/// An index as plain values: the record stored under each path, and the paths
/// added under each signature and under each category, in the order in which
/// they were added.
pub struct SemanticIndexView {
    pub files: Map<Seq<char>, SemanticFileView>,
    pub by_signature: Map<Seq<char>, Seq<Seq<char>>>,
    pub by_dhatu: Map<Dhatu, Seq<Seq<char>>>,
}

impl SemanticIndexView {
    /// The index that holds nothing.
    pub open spec fn empty() -> Self {
        SemanticIndexView { files: Map::empty(), by_signature: Map::empty(), by_dhatu: Map::empty() }
    }

    /// The paths added under a signature; none where there is no such key.
    pub open spec fn signature_paths(self, signature: Seq<char>) -> Seq<Seq<char>> {
        if self.by_signature.contains_key(signature) {
            self.by_signature[signature]
        } else {
            Seq::empty()
        }
    }

    /// The paths added under a category; none where there is no such key.
    pub open spec fn dhatu_paths(self, dhatu: Dhatu) -> Seq<Seq<char>> {
        if self.by_dhatu.contains_key(dhatu) {
            self.by_dhatu[dhatu]
        } else {
            Seq::empty()
        }
    }

    /// The index after `record` is added: the record replaces what was stored
    /// under its path, and the path is appended under the record's signature
    /// and, if the record has a dominant category, under that category.
    pub open spec fn insert(self, record: SemanticFileView) -> Self {
        SemanticIndexView {
            files: self.files.insert(record.path, record),
            by_signature: self.by_signature.insert(
                record.signature,
                self.signature_paths(record.signature).push(record.path),
            ),
            by_dhatu: match record.dominant() {
                Some(dhatu) => self.by_dhatu.insert(
                    dhatu,
                    self.dhatu_paths(dhatu).push(record.path),
                ),
                None => self.by_dhatu,
            },
        }
    }

    /// What is stored under a path, if anything.
    pub open spec fn lookup(self) -> spec_fn(Seq<char>) -> Option<SemanticFileView> {
        |path: Seq<char>| self.files.get(path)
    }

    /// The records stored under the paths of a list, in the order of the list;
    /// a path under which nothing is stored is passed over.
    pub open spec fn resolve(self, paths: Seq<Seq<char>>) -> Seq<SemanticFileView> {
        paths.filter_map(self.lookup())
    }

    /// The records found under a signature.
    pub open spec fn find_by_signature(self, signature: Seq<char>) -> Seq<SemanticFileView> {
        self.resolve(self.signature_paths(signature))
    }

    /// The records found under a category.
    pub open spec fn find_by_dhatu(self, dhatu: Dhatu) -> Seq<SemanticFileView> {
        self.resolve(self.dhatu_paths(dhatu))
    }

    /// Whether each record is stored under its own path, a record is stored
    /// under every path that is listed under a signature or a category, and
    /// no list is empty.
    pub open spec fn consistent(self) -> bool {
        &&& forall|path: Seq<char>| #[trigger]
            self.files.contains_key(path) ==> self.files[path].path == path
        &&& forall|signature: Seq<char>, j: int|
            self.by_signature.contains_key(signature) && 0 <= j
                < self.by_signature[signature].len() ==> self.files.contains_key(
                #[trigger] self.by_signature[signature][j],
            )
        &&& forall|dhatu: Dhatu, j: int|
            self.by_dhatu.contains_key(dhatu) && 0 <= j < self.by_dhatu[dhatu].len()
                ==> self.files.contains_key(#[trigger] self.by_dhatu[dhatu][j])
        &&& forall|signature: Seq<char>| #[trigger]
            self.by_signature.contains_key(signature) ==> self.by_signature[signature].len() > 0
        &&& forall|dhatu: Dhatu| #[trigger]
            self.by_dhatu.contains_key(dhatu) ==> self.by_dhatu[dhatu].len() > 0
    }
}

/// The paths of a list of records.
pub open spec fn paths_of(records: Seq<SemanticFileView>) -> Seq<Seq<char>> {
    records.map_values(|record: SemanticFileView| record.path)
}

/// Whether no two records of a list have the same path.
pub open spec fn distinct_paths(records: Seq<SemanticFileView>) -> bool {
    forall|i: int, j: int|
        0 <= i < j < records.len() ==> (#[trigger] records[i]).path != (#[trigger] records[j]).path
}

/// Whether a record's dominant category is `dhatu`.
pub open spec fn has_dominant(dhatu: Dhatu) -> spec_fn(SemanticFileView) -> bool {
    |record: SemanticFileView| record.dominant() == Some(dhatu)
}

/// Whether a record's signature is `signature`.
pub open spec fn has_signature(signature: Seq<char>) -> spec_fn(SemanticFileView) -> bool {
    |record: SemanticFileView| record.signature == signature
}

impl SemanticIndexView {
    /// The index that holds the records of a list, added in order.
    pub open spec fn of(records: Seq<SemanticFileView>) -> Self
        decreases records.len(),
    {
        if records.len() == 0 {
            Self::empty()
        } else {
            Self::of(records.drop_last()).insert(records.last())
        }
    }

    /// Adding a record keeps an index consistent.
    pub proof fn lemma_insert_consistent(self, record: SemanticFileView)
        requires
            self.consistent(),
        ensures
            self.insert(record).consistent(),
    {
        let after = self.insert(record);
        assert forall|signature: Seq<char>, j: int|
            after.by_signature.contains_key(signature) && 0 <= j
                < after.by_signature[signature].len() implies after.files.contains_key(
            #[trigger] after.by_signature[signature][j],
        ) by {
            if signature == record.signature && j < self.signature_paths(signature).len() {
                assert(self.files.contains_key(self.by_signature[signature][j]));
            } else if signature != record.signature {
                assert(self.files.contains_key(self.by_signature[signature][j]));
            }
        }
        assert forall|dhatu: Dhatu, j: int|
            after.by_dhatu.contains_key(dhatu) && 0 <= j
                < after.by_dhatu[dhatu].len() implies after.files.contains_key(
            #[trigger] after.by_dhatu[dhatu][j],
        ) by {
            if record.dominant() == Some(dhatu) && j < self.dhatu_paths(dhatu).len() {
                assert(self.files.contains_key(self.by_dhatu[dhatu][j]));
            } else if record.dominant() != Some(dhatu) {
                assert(self.files.contains_key(self.by_dhatu[dhatu][j]));
            }
        }
    }

    /// Every index that is built by adding records is consistent.
    pub proof fn lemma_of_consistent(records: Seq<SemanticFileView>)
        ensures
            Self::of(records).consistent(),
        decreases records.len(),
    {
        if records.len() > 0 {
            Self::lemma_of_consistent(records.drop_last());
            Self::of(records.drop_last()).lemma_insert_consistent(records.last());
        }
    }

    /// Where a record is stored under each path of a list, resolving the list
    /// passes over nothing and gives the stored records one by one.
    pub proof fn lemma_resolve_all(self, paths: Seq<Seq<char>>)
        requires
            forall|j: int| 0 <= j < paths.len() ==> self.files.contains_key(#[trigger] paths[j]),
        ensures
            self.resolve(paths).len() == paths.len(),
            forall|j: int|
                0 <= j < paths.len() ==> (#[trigger] self.resolve(paths)[j]) == self.files[paths[j]],
        decreases paths.len(),
    {
        if paths.len() > 0 {
            self.lemma_resolve_all(paths.drop_last());
            assert(self.files.contains_key(paths.last()));
        }
    }

    /// In a consistent index a lookup passes over nothing: it gives, for each
    /// path that is listed, the record stored under that path.
    pub proof fn lemma_found_all(self)
        requires
            self.consistent(),
        ensures
            forall|dhatu: Dhatu| #[trigger]
                self.find_by_dhatu(dhatu).len() == self.dhatu_paths(dhatu).len(),
            forall|dhatu: Dhatu, j: int|
                0 <= j < self.dhatu_paths(dhatu).len() ==> (#[trigger] self.find_by_dhatu(dhatu)[j])
                    == self.files[self.dhatu_paths(dhatu)[j]],
            forall|signature: Seq<char>| #[trigger]
                self.find_by_signature(signature).len() == self.signature_paths(signature).len(),
            forall|signature: Seq<char>, j: int|
                0 <= j < self.signature_paths(signature).len() ==> (
                #[trigger] self.find_by_signature(signature)[j])
                    == self.files[self.signature_paths(signature)[j]],
    {
        assert forall|dhatu: Dhatu| #[trigger]
            self.find_by_dhatu(dhatu).len() == self.dhatu_paths(dhatu).len() by {
            self.lemma_listed_are_stored();
            self.lemma_resolve_all(self.dhatu_paths(dhatu));
        }
        assert forall|dhatu: Dhatu, j: int| 0 <= j < self.dhatu_paths(dhatu).len() implies (
        #[trigger] self.find_by_dhatu(dhatu)[j]) == self.files[self.dhatu_paths(dhatu)[j]] by {
            self.lemma_listed_are_stored();
            self.lemma_resolve_all(self.dhatu_paths(dhatu));
        }
        assert forall|signature: Seq<char>| #[trigger]
            self.find_by_signature(signature).len() == self.signature_paths(signature).len() by {
            self.lemma_listed_are_stored();
            self.lemma_resolve_all(self.signature_paths(signature));
        }
        assert forall|signature: Seq<char>, j: int|
            0 <= j < self.signature_paths(signature).len() implies (
        #[trigger] self.find_by_signature(signature)[j])
            == self.files[self.signature_paths(signature)[j]] by {
            self.lemma_listed_are_stored();
            self.lemma_resolve_all(self.signature_paths(signature));
        }
    }

    /// In a consistent index a record is stored under each listed path.
    proof fn lemma_listed_are_stored(self)
        requires
            self.consistent(),
        ensures
            forall|dhatu: Dhatu, j: int|
                0 <= j < self.dhatu_paths(dhatu).len() ==> self.files.contains_key(
                    #[trigger] self.dhatu_paths(dhatu)[j],
                ),
            forall|signature: Seq<char>, j: int|
                0 <= j < self.signature_paths(signature).len() ==> self.files.contains_key(
                    #[trigger] self.signature_paths(signature)[j],
                ),
    {
        assert forall|dhatu: Dhatu, j: int|
            0 <= j < self.dhatu_paths(dhatu).len() implies self.files.contains_key(
            #[trigger] self.dhatu_paths(dhatu)[j],
        ) by {
            assert(self.files.contains_key(self.by_dhatu[dhatu][j]));
        }
        assert forall|signature: Seq<char>, j: int|
            0 <= j < self.signature_paths(signature).len() implies self.files.contains_key(
            #[trigger] self.signature_paths(signature)[j],
        ) by {
            assert(self.files.contains_key(self.by_signature[signature][j]));
        }
    }

    /// After records with distinct paths are added to an empty index:
    /// a path is stored exactly if it is the path of one of the records, and
    /// then that record is stored under it; the paths listed under a category
    /// are those of the records with that dominant category, in the order of
    /// adding; and likewise the paths listed under a signature.
    pub proof fn lemma_of_distinct(records: Seq<SemanticFileView>)
        requires
            distinct_paths(records),
        ensures
            forall|path: Seq<char>|
                Self::of(records).files.contains_key(path) <==> paths_of(records).contains(path),
            forall|i: int|
                0 <= i < records.len() ==> Self::of(records).files[(#[trigger] records[i]).path]
                    == records[i],
            forall|dhatu: Dhatu| #[trigger]
                Self::of(records).dhatu_paths(dhatu) == paths_of(records.filter(has_dominant(dhatu))),
            forall|signature: Seq<char>| #[trigger]
                Self::of(records).signature_paths(signature) == paths_of(
                    records.filter(has_signature(signature)),
                ),
        decreases records.len(),
    {
        let index = Self::of(records);
        reveal(Seq::filter);
        if records.len() == 0 {
            assert forall|dhatu: Dhatu| #[trigger]
                index.dhatu_paths(dhatu) == paths_of(records.filter(has_dominant(dhatu))) by {
                assert(paths_of(records.filter(has_dominant(dhatu))) =~= Seq::empty());
            }
            assert forall|signature: Seq<char>| #[trigger]
                index.signature_paths(signature) == paths_of(
                    records.filter(has_signature(signature)),
                ) by {
                assert(paths_of(records.filter(has_signature(signature))) =~= Seq::empty());
            }
        } else {
            let earlier = records.drop_last();
            let last = records.last();
            let before = Self::of(earlier);
            Self::lemma_of_distinct(earlier);
            assert forall|path: Seq<char>|
                index.files.contains_key(path) <==> paths_of(records).contains(path) by {
                if paths_of(earlier).contains(path) {
                    let i = choose|i: int| 0 <= i < earlier.len() && paths_of(earlier)[i] == path;
                    assert(paths_of(records)[i] == path);
                }
                if path == last.path {
                    assert(paths_of(records)[records.len() - 1] == path);
                }
                if paths_of(records).contains(path) {
                    let i = choose|i: int| 0 <= i < records.len() && paths_of(records)[i] == path;
                    if i < earlier.len() {
                        assert(paths_of(earlier)[i] == path);
                    }
                }
            }
            assert forall|i: int| 0 <= i < records.len() implies index.files[(
            #[trigger] records[i]).path] == records[i] by {
                if i < earlier.len() {
                    assert(earlier[i] == records[i]);
                    assert(records[i].path != records[records.len() - 1].path);
                }
            }
            assert forall|dhatu: Dhatu| #[trigger]
                index.dhatu_paths(dhatu) == paths_of(records.filter(has_dominant(dhatu))) by {
                let kept = earlier.filter(has_dominant(dhatu));
                assert(before.dhatu_paths(dhatu) == paths_of(kept));
                if last.dominant() == Some(dhatu) {
                    assert(records.filter(has_dominant(dhatu)) == kept.push(last));
                    assert(paths_of(kept.push(last)) =~= paths_of(kept).push(last.path));
                } else {
                    assert(records.filter(has_dominant(dhatu)) == kept);
                }
            }
            assert forall|signature: Seq<char>| #[trigger]
                index.signature_paths(signature) == paths_of(
                    records.filter(has_signature(signature)),
                ) by {
                let kept = earlier.filter(has_signature(signature));
                assert(before.signature_paths(signature) == paths_of(kept));
                if last.signature == signature {
                    assert(records.filter(has_signature(signature)) == kept.push(last));
                    assert(paths_of(kept.push(last)) =~= paths_of(kept).push(last.path));
                } else {
                    assert(records.filter(has_signature(signature)) == kept);
                }
            }
        }
    }

    /// After records with distinct paths are added to an empty index, the
    /// records found under a category are those with that dominant category,
    /// and the records found under a signature are those with that signature,
    /// each once and in the order of adding.
    pub proof fn lemma_found_are_added(records: Seq<SemanticFileView>)
        requires
            distinct_paths(records),
        ensures
            forall|dhatu: Dhatu| #[trigger]
                Self::of(records).find_by_dhatu(dhatu) == records.filter(has_dominant(dhatu)),
            forall|signature: Seq<char>| #[trigger]
                Self::of(records).find_by_signature(signature) == records.filter(
                    has_signature(signature),
                ),
    {
        let index = Self::of(records);
        Self::lemma_of_distinct(records);
        assert forall|dhatu: Dhatu| #[trigger]
            index.find_by_dhatu(dhatu) == records.filter(has_dominant(dhatu)) by {
            let found = records.filter(has_dominant(dhatu));
            assert forall|j: int| 0 <= j < found.len() implies records.contains(
                #[trigger] found[j],
            ) by {
                assert(found.contains(found[j]));
                records.lemma_filter_contains_rev(has_dominant(dhatu), found[j]);
            }
            Self::lemma_resolve_added(records, found);
        }
        assert forall|signature: Seq<char>| #[trigger]
            index.find_by_signature(signature) == records.filter(has_signature(signature)) by {
            let found = records.filter(has_signature(signature));
            assert forall|j: int| 0 <= j < found.len() implies records.contains(
                #[trigger] found[j],
            ) by {
                assert(found.contains(found[j]));
                records.lemma_filter_contains_rev(has_signature(signature), found[j]);
            }
            Self::lemma_resolve_added(records, found);
        }
    }

    /// After records with distinct paths are added to an empty index,
    /// resolving the paths of some of them gives those records back.
    proof fn lemma_resolve_added(records: Seq<SemanticFileView>, some: Seq<SemanticFileView>)
        requires
            distinct_paths(records),
            forall|j: int| 0 <= j < some.len() ==> records.contains(#[trigger] some[j]),
        ensures
            Self::of(records).resolve(paths_of(some)) == some,
    {
        let index = Self::of(records);
        Self::lemma_of_distinct(records);
        assert forall|j: int| 0 <= j < some.len() implies index.files.contains_key(
            #[trigger] paths_of(some)[j],
        ) && index.files[paths_of(some)[j]] == some[j] by {
            let i = choose|i: int| 0 <= i < records.len() && records[i] == some[j];
            assert(paths_of(records)[i] == some[j].path);
            assert(paths_of(records).contains(some[j].path));
            assert(paths_of(some)[j] == some[j].path);
            assert(index.files[records[i].path] == records[i]);
        }
        index.lemma_resolve_all(paths_of(some));
        assert(index.resolve(paths_of(some)) =~= some);
    }

    /// After records with distinct paths are added to an empty index, a path
    /// is found exactly if it is the path of one of them, and what is found is
    /// that record; and the records found under the categories, all taken
    /// together, are the added records whose ranking is not empty.
    pub proof fn lemma_lookups_after_adding(records: Seq<SemanticFileView>)
        requires
            distinct_paths(records),
        ensures
            forall|path: Seq<char>|
                Self::of(records).files.contains_key(path) <==> exists|i: int|
                    0 <= i < records.len() && (#[trigger] records[i]).path == path,
            forall|i: int|
                0 <= i < records.len() ==> Self::of(records).files.get(
                    (#[trigger] records[i]).path,
                ) == Some(records[i]),
            forall|record: SemanticFileView|
                (exists|dhatu: Dhatu| #[trigger]
                    Self::of(records).find_by_dhatu(dhatu).contains(record)) <==> (
                records.contains(record) && record.top_dhatus.len() > 0),
    {
        let index = Self::of(records);
        Self::lemma_of_distinct(records);
        Self::lemma_found_are_added(records);
        assert forall|path: Seq<char>|
            index.files.contains_key(path) <==> exists|i: int|
                0 <= i < records.len() && (#[trigger] records[i]).path == path by {
            if paths_of(records).contains(path) {
                let i = choose|i: int| 0 <= i < records.len() && paths_of(records)[i] == path;
                assert(records[i].path == path);
            }
            if exists|i: int| 0 <= i < records.len() && (#[trigger] records[i]).path == path {
                let i = choose|i: int| 0 <= i < records.len() && (#[trigger] records[i]).path == path;
                assert(paths_of(records)[i] == path);
            }
        }
        assert forall|i: int| 0 <= i < records.len() implies index.files.get(
            (#[trigger] records[i]).path,
        ) == Some(records[i]) by {
            assert(paths_of(records)[i] == records[i].path);
        }
        assert forall|record: SemanticFileView|
            (exists|dhatu: Dhatu| #[trigger]
                index.find_by_dhatu(dhatu).contains(record)) <==> (records.contains(record)
                && record.top_dhatus.len() > 0) by {
            if exists|dhatu: Dhatu| #[trigger] index.find_by_dhatu(dhatu).contains(record) {
                let dhatu = choose|dhatu: Dhatu| #[trigger]
                    index.find_by_dhatu(dhatu).contains(record);
                let found = records.filter(has_dominant(dhatu));
                let j = choose|j: int| 0 <= j < found.len() && found[j] == record;
                records.lemma_filter_pred(has_dominant(dhatu), j);
                records.lemma_filter_contains_rev(has_dominant(dhatu), record);
            }
            if records.contains(record) && record.top_dhatus.len() > 0 {
                let dhatu = record.top_dhatus[0].0;
                let i = choose|i: int| 0 <= i < records.len() && records[i] == record;
                records.lemma_filter_contains(has_dominant(dhatu), i);
                assert(index.find_by_dhatu(dhatu).contains(record));
            }
        }
    }
}

} // verus!
