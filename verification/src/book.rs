//! The record type of the catalog and the outcomes its operations report.

use vstd::prelude::*;

verus! {

/// One catalogued book: title, author, publication year and the identifier
/// (an ISBN-like string) under which the catalog keys it.
#[derive(Debug)]
pub struct Book {
    pub title: String,
    pub author: String,
    pub year: u32,
    pub isbn: String,
}

/// The mathematical value of a [`Book`]: its text fields as character
/// sequences. Contracts of the catalog speak of records through this view.
pub struct BookView {
    pub title: Seq<char>,
    pub author: Seq<char>,
    pub year: u32,
    pub isbn: Seq<char>,
}

impl View for Book {
    type V = BookView;

    open spec fn view(&self) -> BookView {
        BookView {
            title: self.title@,
            author: self.author@,
            year: self.year,
            isbn: self.isbn@,
        }
    }
}

impl Book {
    /// A field-for-field copy of the record. Callers of the shared catalog
    /// receive such copies, never a handle into the store.
    pub fn duplicate(&self) -> (b: Book)
        ensures
            b@ == self@,
    {
        Book {
            title: self.title.clone(),
            author: self.author.clone(),
            year: self.year,
            isbn: self.isbn.clone(),
        }
    }
}

/// The outcome of a mutation of the catalog. Duplicate insertions and
/// lookups of absent identifiers are ordinary results the caller branches
/// on, never panics.
#[derive(Debug)]
pub enum LibraryResult {
    /// An insertion was refused because the identifier is already taken.
    AlreadyExists,
    /// Unused by the current operation set: the catalog never overwrites.
    BookUpdated,
    /// An insertion succeeded.
    BookAdded,
    /// A lookup or deletion named an identifier that is not in the catalog.
    DoesNotExist,
}

/// The parameters of a search request: the free-text query handed verbatim
/// to the search operation.
pub struct Params {
    pub q: String,
}

} // verus!
