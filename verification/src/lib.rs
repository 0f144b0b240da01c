//! An in-memory catalog of uniquely identified book records.
//!
//! The catalog holds [`Book`] records keyed by their identifier and offers
//! insertion, point lookup, deletion, enumeration and case-sensitive
//! substring search. Every operation carries a contract over an abstract
//! map from identifier to record, and the uniqueness of identifiers is an
//! invariant of the store. [`Library`] is the store itself;
//! [`SharedLibrary`] puts it behind a store-wide lock so that any number
//! of concurrent callers each get one whole, serialized operation.

mod book;
mod laws;
mod library;
mod shared;
mod store;
mod text;

pub use book::Book;
pub use book::BookView;
pub use book::LibraryResult;
pub use book::Params;
pub use laws::lemma_add_retains_earlier;
pub use laws::lemma_add_then_get;
pub use laws::lemma_empty_query_matches_all;
pub use laws::lemma_remove_then_remove;
pub use library::book_matches;
pub use library::Library;
pub use shared::CatalogInv;
pub use shared::SharedLibrary;
pub use text::contains_substring;
pub use text::is_substring_of;
pub use text::matches_at;
pub use text::str_eq;
