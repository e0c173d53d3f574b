//! A file's record: its path and size with the fingerprint of its content.

use crate::dhatu::Dhatu;
use crate::ranking::{is_ranking, lemma_ranking_unique};
use crate::signature::signature_of;
use crate::vector::{lemma_normalized_range, normalized, raw_weights, DhatuVector};
use vstd::prelude::*;

verus! {

/// What is known of one file. Weights are IEEE-754 binary64 bit patterns.
#[derive(Debug, Clone)]
pub struct SemanticFile {
    pub path: String,
    pub size: u64,
    pub dhatu_vector: DhatuVector,
    pub signature: String,
    pub top_dhatus: Vec<(Dhatu, u64)>,
}

/// A record as plain values.
pub struct SemanticFileView {
    pub path: Seq<char>,
    pub size: nat,
    pub weights: Seq<u64>,
    pub signature: Seq<char>,
    pub top_dhatus: Seq<(Dhatu, u64)>,
}

impl View for SemanticFile {
    type V = SemanticFileView;

    open spec fn view(&self) -> SemanticFileView {
        SemanticFileView {
            path: self.path@,
            size: self.size as nat,
            weights: self.dhatu_vector.weights@,
            signature: self.signature@,
            top_dhatus: self.top_dhatus@,
        }
    }
}

impl SemanticFileView {
    /// The category under which a record is indexed: that of the first entry
    /// of its ranking, if there is one.
    pub open spec fn dominant(self) -> Option<Dhatu> {
        if self.top_dhatus.len() > 0 {
            Some(self.top_dhatus[0].0)
        } else {
            None
        }
    }
}

/// Whether `record` is the record of a file at `path` that holds `content`:
/// the size is the length of the content, the weights are those of the
/// content, the signature is that of the weights, and the ranking is that of
/// the first four categories.
pub open spec fn describes(record: SemanticFileView, path: Seq<char>, content: Seq<u8>) -> bool {
    &&& record.path == path
    &&& record.size == content.len()
    &&& record.weights == normalized(raw_weights(content))
    &&& record.signature == signature_of(record.weights)
    &&& is_ranking(record.weights, 4, record.top_dhatus)
}

/// The content decides the record: two records of the same content agree in
/// size, weights, signature and ranking, whatever their paths.
pub proof fn lemma_same_content_same_record(
    a: SemanticFileView,
    b: SemanticFileView,
    path_a: Seq<char>,
    path_b: Seq<char>,
    content: Seq<u8>,
)
    requires
        describes(a, path_a, content),
        describes(b, path_b, content),
    ensures
        a.size == b.size,
        a.weights == b.weights,
        a.signature == b.signature,
        a.top_dhatus == b.top_dhatus,
{
    lemma_ranking_unique(a.weights, 4, a.top_dhatus, b.top_dhatus);
}

impl SemanticFile {
    /// The record of a file at `path` that holds `content`.
    pub fn from_content(path: String, content: &[u8]) -> (file: Self)
        ensures
            describes(file@, path@, content@),
    {
        let dhatu_vector = DhatuVector::from_content(content);
        proof {
            lemma_normalized_range(raw_weights(content@));
        }
        let signature = dhatu_vector.signature();
        let top_dhatus = dhatu_vector.top_dhatus(4);
        SemanticFile { path, size: content.len() as u64, dhatu_vector, signature, top_dhatus }
    }
}

} // verus!
