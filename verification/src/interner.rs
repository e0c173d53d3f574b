//! Distinct strings, numbered in the order in which they were added.

use vstd::hash_map::StringHashMap;
use vstd::prelude::*;

verus! {

/// A list of distinct strings with a hash map from each string to its
/// position, so that a string is found without a scan.
pub struct Interner {
    names: Vec<String>,
    slots: StringHashMap<usize>,
}

/// The strings of a list as sequences of characters.
pub open spec fn texts(strings: Seq<String>) -> Seq<Seq<char>> {
    strings.map_values(|s: String| s@)
}

impl View for Interner {
    type V = Seq<Seq<char>>;

    /// The strings, in the order in which they were added.
    closed spec fn view(&self) -> Seq<Seq<char>> {
        texts(self.names@)
    }
}

impl Interner {
    /// Whether the hash map holds exactly the positions of the strings.
    pub closed spec fn wf(&self) -> bool {
        &&& forall|name: Seq<char>| #[trigger]
            self.slots@.contains_key(name) ==> self.slots@[name] < self@.len()
                && self@[self.slots@[name] as int] == name
        &&& forall|i: int|
            0 <= i < self@.len() ==> self.slots@.contains_key(#[trigger] self@[i])
                && self.slots@[self@[i]] == i
    }

    /// No string occurs twice.
    pub proof fn lemma_distinct(&self)
        requires
            self.wf(),
        ensures
            self@.no_duplicates(),
    {
    }

    /// A string that is held has one position, and `index_of` gives it.
    pub proof fn lemma_index_of(&self, i: int)
        requires
            self.wf(),
            0 <= i < self@.len(),
        ensures
            self@.contains(self@[i]),
            self@.index_of(self@[i]) == i,
    {
    }

    pub fn new() -> (interner: Self)
        ensures
            interner.wf(),
            interner@ == Seq::<Seq<char>>::empty(),
    {
        let interner = Interner { names: Vec::new(), slots: StringHashMap::new() };
        assert(interner@ =~= Seq::<Seq<char>>::empty());
        interner
    }

    /// The number of strings held.
    pub fn len(&self) -> (n: usize)
        ensures
            n == self@.len(),
    {
        self.names.len()
    }

    /// The strings, in the order in which they were added.
    pub fn names(&self) -> (names: &Vec<String>)
        ensures
            texts(names@) == self@,
    {
        &self.names
    }

    /// The position of `name`, if it is held.
    pub fn find(&self, name: &str) -> (slot: Option<usize>)
        requires
            self.wf(),
        ensures
            match slot {
                Some(i) => i < self@.len() && self@[i as int] == name@,
                None => !self@.contains(name@),
            },
    {
        match self.slots.get(name) {
            Some(slot) => Some(*slot),
            None => None,
        }
    }

    /// Adds a string that is not held yet, and returns its position.
    pub fn add(&mut self, name: String) -> (slot: usize)
        requires
            old(self).wf(),
            !old(self)@.contains(name@),
        ensures
            final(self).wf(),
            final(self)@ == old(self)@.push(name@),
            slot == old(self)@.len(),
    {
        let slot = self.names.len();
        self.slots.insert(name.clone(), slot);
        self.names.push(name);
        assert(self@ =~= old(self)@.push(name@));
        slot
    }
}

} // verus!
