//! Semantic fingerprints for file content, and an in-memory index over them.
//!
//! Content is mapped to nine weights, one per [`Dhatu`], which are carried as
//! IEEE-754 binary64 bit patterns. A short hexadecimal signature and a ranking
//! of the categories are derived from the weights, and a [`SemanticIndex`]
//! finds records by path, by signature and by dominant category.

pub mod binary64;
pub mod dhatu;
pub mod digest;
pub mod file;
pub mod hex;
pub mod index;
pub mod index_model;
pub mod interner;
pub mod ranking;
pub mod signature;
pub mod vector;

pub use crate::dhatu::Dhatu;
pub use crate::file::SemanticFile;
pub use crate::index::SemanticIndex;
pub use crate::vector::DhatuVector;
