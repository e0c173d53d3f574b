//! Records of files, found by path, by signature and by dominant category.

use crate::dhatu::Dhatu;
use crate::file::{SemanticFile, SemanticFileView};
use crate::index_model::SemanticIndexView;
use crate::interner::{texts, Interner};
use vstd::prelude::*;

verus! {

/// The records of a list as plain values.
pub open spec fn records(files: Seq<&SemanticFile>) -> Seq<SemanticFileView> {
    files.map_values(|file: &SemanticFile| file@)
}

/// An in-memory index of records.
///
/// Records are kept in the order in which their paths first came, one per
/// path. Each signature has a list of paths, and so has each category.
pub struct SemanticIndex {
    paths: Interner,
    files: Vec<SemanticFile>,
    signatures: Interner,
    signature_paths: Vec<Vec<String>>,
    dhatu_paths: Vec<Vec<String>>,
}

impl View for SemanticIndex {
    type V = SemanticIndexView;

    closed spec fn view(&self) -> SemanticIndexView {
        SemanticIndexView {
            files: Map::new(
                |path: Seq<char>| self.paths@.contains(path),
                |path: Seq<char>| self.files@[self.paths@.index_of(path)]@,
            ),
            by_signature: Map::new(
                |signature: Seq<char>| self.signatures@.contains(signature),
                |signature: Seq<char>|
                    texts(self.signature_paths@[self.signatures@.index_of(signature)]@),
            ),
            by_dhatu: Map::new(
                |dhatu: Dhatu| self.dhatu_paths@[dhatu.spec_index()]@.len() > 0,
                |dhatu: Dhatu| texts(self.dhatu_paths@[dhatu.spec_index()]@),
            ),
        }
    }
}

impl Default for SemanticIndex {
    fn default() -> (index: Self)
        ensures
            index.wf(),
            index@ == SemanticIndexView::empty(),
    {
        SemanticIndex::new()
    }
}

impl SemanticIndex {
    /// Whether the parts of the index fit together: one record for each path,
    /// one non-empty list for each signature, nine lists for the categories,
    /// and a record for every path in a list.
    pub closed spec fn wf(&self) -> bool {
        &&& self.paths.wf()
        &&& self.signatures.wf()
        &&& self.files@.len() == self.paths@.len()
        &&& forall|i: int|
            0 <= i < self.files@.len() ==> (#[trigger] self.files@[i]).path@ == self.paths@[i]
        &&& self.signature_paths@.len() == self.signatures@.len()
        &&& forall|i: int|
            0 <= i < self.signature_paths@.len() ==> (#[trigger] self.signature_paths@[i])@.len()
                > 0
        &&& self.dhatu_paths@.len() == 9
        &&& forall|i: int, j: int|
            0 <= i < self.signature_paths@.len() && 0 <= j < self.signature_paths@[i]@.len()
                ==> self.paths@.contains(#[trigger] self.signature_paths@[i]@[j]@)
        &&& forall|i: int, j: int|
            0 <= i < 9 && 0 <= j < self.dhatu_paths@[i]@.len() ==> self.paths@.contains(
                #[trigger] self.dhatu_paths@[i]@[j]@,
            )
    }

    /// A well-formed index is consistent.
    pub proof fn lemma_consistent(&self)
        requires
            self.wf(),
        ensures
            self@.consistent(),
    {
        assert forall|signature: Seq<char>, j: int|
            self@.by_signature.contains_key(signature) && 0 <= j
                < self@.by_signature[signature].len() implies self@.files.contains_key(
            #[trigger] self@.by_signature[signature][j],
        ) by {
            let i = self.signatures@.index_of(signature);
            assert(self.paths@.contains(self.signature_paths@[i]@[j]@));
        }
        assert forall|dhatu: Dhatu, j: int|
            self@.by_dhatu.contains_key(dhatu) && 0 <= j
                < self@.by_dhatu[dhatu].len() implies self@.files.contains_key(
            #[trigger] self@.by_dhatu[dhatu][j],
        ) by {
            let i = dhatu.spec_index();
            assert(self.paths@.contains(self.dhatu_paths@[i]@[j]@));
        }
        assert forall|signature: Seq<char>| #[trigger]
            self@.by_signature.contains_key(signature) implies self@.by_signature[signature].len()
            > 0 by {
            let i = self.signatures@.index_of(signature);
            assert(self.signature_paths@[i]@.len() > 0);
        }
        assert forall|path: Seq<char>| #[trigger]
            self@.files.contains_key(path) implies self@.files[path].path == path by {
            let i = self.paths@.index_of(path);
            assert(self.files@[i].path@ == self.paths@[i]);
        }
    }

    /// An index that holds nothing.
    pub fn new() -> (index: Self)
        ensures
            index.wf(),
            index@ == SemanticIndexView::empty(),
            index@.consistent(),
    {
        let mut dhatu_paths: Vec<Vec<String>> = Vec::new();
        let mut i: usize = 0;
        while i < 9
            invariant
                i <= 9,
                dhatu_paths@.len() == i,
                forall|j: int| 0 <= j < i ==> (#[trigger] dhatu_paths@[j])@.len() == 0,
            decreases 9 - i,
        {
            dhatu_paths.push(Vec::new());
            i = i + 1;
        }
        let index = SemanticIndex {
            paths: Interner::new(),
            files: Vec::new(),
            signatures: Interner::new(),
            signature_paths: Vec::new(),
            dhatu_paths,
        };
        assert(index@.files =~= Map::empty());
        assert(index@.by_signature =~= Map::empty());
        assert(index@.by_dhatu =~= Map::empty());
        proof {
            index.lemma_consistent();
        }
        index
    }

    /// The records stored under the paths of a list.
    fn resolve<'a>(&'a self, paths: &Vec<String>) -> (found: Vec<&'a SemanticFile>)
        requires
            self.wf(),
        ensures
            records(found@) == self@.resolve(texts(paths@)),
    {
        let mut found: Vec<&'a SemanticFile> = Vec::new();
        let mut i: usize = 0;
        assert(texts(paths@).take(0).filter_map(self@.lookup()) =~= Seq::empty());
        assert(records(found@) =~= Seq::empty());
        while i < paths.len()
            invariant
                self.wf(),
                i <= paths.len(),
                records(found@) == self@.resolve(texts(paths@).take(i as int)),
            decreases paths.len() - i,
        {
            let ghost before = records(found@);
            proof {
                texts(paths@).lemma_filter_map_take_succ(self@.lookup(), i as int);
            }
            match self.paths.find(paths[i].as_str()) {
                Some(slot) => {
                    proof {
                        self.paths.lemma_index_of(slot as int);
                    }
                    found.push(&self.files[slot]);
                    assert(records(found@) =~= before.push(self.files@[slot as int]@));
                },
                None => {},
            }
            i = i + 1;
        }
        assert(texts(paths@).take(paths@.len() as int) =~= texts(paths@));
        found
    }

    /// Stores a record under its path, in place of what was stored there.
    fn store(&mut self, file: SemanticFile)
        requires
            old(self).wf(),
        ensures
            final(self).wf(),
            final(self)@.files == old(self)@.files.insert(file@.path, file@),
            final(self)@.by_signature == old(self)@.by_signature,
            final(self)@.by_dhatu == old(self)@.by_dhatu,
    {
        match self.paths.find(file.path.as_str()) {
            Some(slot) => {
                proof {
                    self.paths.lemma_index_of(slot as int);
                    self.paths.lemma_distinct();
                }
                self.files[slot] = file;
                assert(self@.files =~= old(self)@.files.insert(file@.path, file@));
            },
            None => {
                self.paths.add(file.path.clone());
                self.files.push(file);
                proof {
                    assert forall|i: int| 0 <= i < old(self).paths@.len() implies self.paths@.contains(
                        #[trigger] old(self).paths@[i],
                    ) && self.paths@.index_of(old(self).paths@[i]) == i by {
                        assert(self.paths@[i] == old(self).paths@[i]);
                        self.paths.lemma_index_of(i);
                    }
                    assert forall|path: Seq<char>| #[trigger]
                        old(self).paths@.contains(path) implies self.paths@.contains(path)
                        && self.paths@.index_of(path) == old(self).paths@.index_of(path) by {
                        let i = old(self).paths@.index_of(path);
                        assert(old(self).paths@[i] == path);
                    }
                    self.paths.lemma_index_of(old(self).paths@.len() as int);
                    assert(self@.files =~= old(self)@.files.insert(file@.path, file@));
                }
            },
        }
        assert(self@.by_signature =~= old(self)@.by_signature);
        assert(self@.by_dhatu =~= old(self)@.by_dhatu);
    }

    /// Appends a path to the list of a signature, which is begun if need be.
    fn list_under_signature(&mut self, signature: String, path: String)
        requires
            old(self).wf(),
            old(self)@.files.contains_key(path@),
        ensures
            final(self).wf(),
            final(self)@.files == old(self)@.files,
            final(self)@.by_signature == old(self)@.by_signature.insert(
                signature@,
                old(self)@.signature_paths(signature@).push(path@),
            ),
            final(self)@.by_dhatu == old(self)@.by_dhatu,
    {
        match self.signatures.find(signature.as_str()) {
            Some(slot) => {
                proof {
                    self.signatures.lemma_index_of(slot as int);
                    self.signatures.lemma_distinct();
                }
                self.signature_paths[slot].push(path);
                assert(texts(self.signature_paths@[slot as int]@) =~= texts(
                    old(self).signature_paths@[slot as int]@,
                ).push(path@));
            },
            None => {
                self.signatures.add(signature);
                let mut paths: Vec<String> = Vec::new();
                paths.push(path);
                self.signature_paths.push(paths);
                proof {
                    assert(texts(paths@) =~= Seq::<Seq<char>>::empty().push(path@));
                    assert forall|i: int|
                        0 <= i < old(self).signatures@.len() implies self.signatures@.contains(
                        #[trigger] old(self).signatures@[i],
                    ) && self.signatures@.index_of(old(self).signatures@[i]) == i by {
                        assert(self.signatures@[i] == old(self).signatures@[i]);
                        self.signatures.lemma_index_of(i);
                    }
                    assert forall|name: Seq<char>| #[trigger]
                        old(self).signatures@.contains(name) implies self.signatures@.contains(name)
                        && self.signatures@.index_of(name) == old(self).signatures@.index_of(
                        name,
                    ) by {
                        let i = old(self).signatures@.index_of(name);
                        assert(old(self).signatures@[i] == name);
                    }
                    self.signatures.lemma_index_of(old(self).signatures@.len() as int);
                }
            },
        }
        assert(self@.by_signature =~= old(self)@.by_signature.insert(
            signature@,
            old(self)@.signature_paths(signature@).push(path@),
        ));
        assert(self@.files =~= old(self)@.files);
        assert(self@.by_dhatu =~= old(self)@.by_dhatu);
    }

    /// Appends a path to the list of a category.
    fn list_under_dhatu(&mut self, dhatu: Dhatu, path: String)
        requires
            old(self).wf(),
            old(self)@.files.contains_key(path@),
        ensures
            final(self).wf(),
            final(self)@.files == old(self)@.files,
            final(self)@.by_signature == old(self)@.by_signature,
            final(self)@.by_dhatu == old(self)@.by_dhatu.insert(
                dhatu,
                old(self)@.dhatu_paths(dhatu).push(path@),
            ),
    {
        let slot = dhatu.index();
        self.dhatu_paths[slot].push(path);
        assert(texts(self.dhatu_paths@[slot as int]@) =~= texts(
            old(self).dhatu_paths@[slot as int]@,
        ).push(path@));
        assert(old(self)@.dhatu_paths(dhatu) =~= texts(old(self).dhatu_paths@[slot as int]@));
        assert forall|other: Dhatu| other != dhatu implies self.dhatu_paths@[other.spec_index()]
            == old(self).dhatu_paths@[other.spec_index()] by {
            assert(Dhatu::at(other.spec_index()) == other);
            assert(Dhatu::at(dhatu.spec_index()) == dhatu);
        }
        assert(self@.by_dhatu =~= old(self)@.by_dhatu.insert(
            dhatu,
            old(self)@.dhatu_paths(dhatu).push(path@),
        ));
        assert(self@.files =~= old(self)@.files);
        assert(self@.by_signature =~= old(self)@.by_signature);
    }

    /// Adds a record. It replaces the record stored under the same path, if
    /// there is one, and its path is appended to the list of its signature
    /// and, if its ranking is not empty, to the list of its dominant category.
    pub fn add_file(&mut self, file: SemanticFile)
        requires
            old(self).wf(),
        ensures
            final(self).wf(),
            final(self)@ == old(self)@.insert(file@),
            final(self)@.consistent(),
    {
        let path = file.path.clone();
        let signature = file.signature.clone();
        let dominant: Option<Dhatu> = if file.top_dhatus.len() > 0 {
            Some(file.top_dhatus[0].0)
        } else {
            None
        };
        self.store(file);
        self.list_under_signature(signature, path.clone());
        match dominant {
            Some(dhatu) => {
                self.list_under_dhatu(dhatu, path);
            },
            None => {},
        }
        proof {
            self.lemma_consistent();
        }
    }

    /// The records stored under the paths that were added under `dhatu`, one
    /// for each time a path was added, in the order of adding.
    pub fn find_by_dhatu(&self, dhatu: Dhatu) -> (found: Vec<&SemanticFile>)
        requires
            self.wf(),
        ensures
            records(found@) == self@.find_by_dhatu(dhatu),
            found@.len() == self@.dhatu_paths(dhatu).len(),
    {
        proof {
            self.lemma_consistent();
            self@.lemma_found_all();
        }
        let found = self.resolve(&self.dhatu_paths[dhatu.index()]);
        assert(records(found@).len() == found@.len());
        found
    }

    /// The records stored under the paths that were added under `signature`,
    /// one for each time a path was added, in the order of adding.
    pub fn find_by_signature(&self, signature: &str) -> (found: Vec<&SemanticFile>)
        requires
            self.wf(),
        ensures
            records(found@) == self@.find_by_signature(signature@),
            found@.len() == self@.signature_paths(signature@).len(),
    {
        proof {
            self.lemma_consistent();
            self@.lemma_found_all();
        }
        let found = self.lookup_signature(signature);
        assert(records(found@).len() == found@.len());
        found
    }

    /// The records found under `signature`.
    fn lookup_signature(&self, signature: &str) -> (found: Vec<&SemanticFile>)
        requires
            self.wf(),
        ensures
            records(found@) == self@.find_by_signature(signature@),
    {
        match self.signatures.find(signature) {
            Some(slot) => {
                proof {
                    self.signatures.lemma_index_of(slot as int);
                }
                self.resolve(&self.signature_paths[slot])
            },
            None => {
                let found: Vec<&SemanticFile> = Vec::new();
                assert(records(found@) =~= Seq::empty());
                assert(Seq::<Seq<char>>::empty().filter_map(self@.lookup()) =~= Seq::empty());
                found
            },
        }
    }

    /// The stored records, one for each path, in the order in which the paths
    /// first came.
    pub fn files(&self) -> (files: &Vec<SemanticFile>)
        requires
            self.wf(),
        ensures
            forall|i: int|
                0 <= i < files@.len() ==> self@.files.get((#[trigger] files@[i]).path@) == Some(
                    files@[i]@,
                ),
            forall|path: Seq<char>| #[trigger]
                self@.files.contains_key(path) ==> exists|i: int|
                    0 <= i < files@.len() && (#[trigger] files@[i]).path@ == path,
            forall|i: int, j: int|
                0 <= i < j < files@.len() ==> (#[trigger] files@[i]).path@ != (
                #[trigger] files@[j]).path@,
    {
        proof {
            self.paths.lemma_distinct();
            assert forall|i: int| 0 <= i < self.files@.len() implies self@.files.get(
                (#[trigger] self.files@[i]).path@,
            ) == Some(self.files@[i]@) by {
                self.paths.lemma_index_of(i);
            }
            assert forall|path: Seq<char>| #[trigger]
                self@.files.contains_key(path) implies exists|i: int|
                0 <= i < self.files@.len() && (#[trigger] self.files@[i]).path@ == path by {
                let i = self.paths@.index_of(path);
                assert(self.files@[i].path@ == path);
            }
        }
        &self.files
    }

    /// The signatures under which paths are listed, each once, in the order
    /// in which they first came.
    pub fn signatures(&self) -> (signatures: &Vec<String>)
        requires
            self.wf(),
        ensures
            texts(signatures@).no_duplicates(),
            forall|signature: Seq<char>|
                self@.by_signature.contains_key(signature) <==> texts(signatures@).contains(
                    signature,
                ),
    {
        proof {
            self.signatures.lemma_distinct();
        }
        self.signatures.names()
    }

    /// The paths listed under `signature`, if it is a key.
    pub fn paths_by_signature(&self, signature: &str) -> (paths: Option<&Vec<String>>)
        requires
            self.wf(),
        ensures
            match paths {
                Some(paths) => self@.by_signature.contains_key(signature@) && texts(paths@)
                    == self@.by_signature[signature@],
                None => !self@.by_signature.contains_key(signature@),
            },
    {
        match self.signatures.find(signature) {
            Some(slot) => {
                proof {
                    self.signatures.lemma_index_of(slot as int);
                }
                Some(&self.signature_paths[slot])
            },
            None => None,
        }
    }

    /// The paths listed under `dhatu`; none where it is not a key.
    pub fn paths_by_dhatu(&self, dhatu: Dhatu) -> (paths: &Vec<String>)
        requires
            self.wf(),
        ensures
            texts(paths@) == self@.dhatu_paths(dhatu),
    {
        let paths = &self.dhatu_paths[dhatu.index()];
        assert(texts(paths@) =~= self@.dhatu_paths(dhatu));
        paths
    }

    /// The record stored under `path`, if there is one.
    pub fn get_file(&self, path: &str) -> (file: Option<&SemanticFile>)
        requires
            self.wf(),
        ensures
            match file {
                Some(file) => self@.files.contains_key(path@) && file@ == self@.files[path@],
                None => !self@.files.contains_key(path@),
            },
    {
        match self.paths.find(path) {
            Some(slot) => {
                proof {
                    self.paths.lemma_index_of(slot as int);
                }
                Some(&self.files[slot])
            },
            None => None,
        }
    }
}

} // verus!
