//! The concurrency wrapper around the catalog.
//!
//! The store is a single shared resource: every operation, read or write,
//! must run under mutual exclusion with every other for its whole
//! duration, so that each call sees one consistent instant of the store
//! and no snapshot is torn by a concurrent mutation. The wrapper owns the
//! catalog inside a verified lock whose invariant is the store's
//! well-formedness; each method acquires the lock once, performs one whole
//! operation of [`Library`], and releases it on every path — never
//! part-way through. Results are copied out: a caller never holds a view
//! into the locked store.

use vstd::prelude::*;
use vstd::rwlock::{RwLock, RwLockPredicate};

verus! {

use crate::book::{Book, LibraryResult};
use crate::library::{book_matches, Library};

/// The lock's invariant: whatever store the lock holds is well-formed.
pub struct CatalogInv;

impl RwLockPredicate<Library> for CatalogInv {
    open spec fn inv(self, v: Library) -> bool {
        v.wf()
    }
}

/// The catalog behind a store-wide exclusive lock, callable from any
/// number of concurrent request handlers. Outcomes are those of
/// [`Library`] against the store as the operation found it; what each
/// contract here states holds of every interleaving.
pub struct SharedLibrary {
    lock: RwLock<Library, CatalogInv>,
}

impl SharedLibrary {
    /// A new shared catalog holding nothing.
    pub fn new() -> SharedLibrary {
        SharedLibrary { lock: RwLock::new(Library::new(), Ghost(CatalogInv)) }
    }

    /// Insert `book`, refusing a taken identifier; one atomic step of the
    /// store.
    pub fn add_book(&self, book: Book) -> (r: Result<LibraryResult, LibraryResult>)
        ensures
            (r matches Ok(LibraryResult::BookAdded)) || (r matches Err(
                LibraryResult::AlreadyExists,
            )),
    {
        let (mut lib, handle) = self.lock.acquire_write();
        let r = lib.add_book(book);
        handle.release_write(lib);
        r
    }

    /// Look up `isbn`, handing back a copy of the stored record on a hit.
    pub fn get_book(&self, isbn: &str) -> (r: Result<Book, LibraryResult>)
        ensures
            r matches Err(e) ==> e is DoesNotExist,
    {
        let read = self.lock.acquire_read();
        let lib = read.borrow();
        let r = match lib.get_book(isbn) {
            Ok(b) => Ok(b.duplicate()),
            Err(e) => Err(e),
        };
        read.release_read();
        r
    }

    /// Delete the record under `isbn`, reporting whether one was there.
    pub fn remove_book(&self, isbn: &str) -> (r: Result<String, String>)
        ensures
            (r matches Ok(m) && m@ == "Removed"@) || (r matches Err(m) && m@ == "Nonexistant"@),
    {
        let (mut lib, handle) = self.lock.acquire_write();
        let r = lib.remove_book(isbn);
        handle.release_write(lib);
        r
    }

    /// A snapshot of every stored record, consistent with one instant of
    /// the store: no other identifier appears twice.
    pub fn get_books(&self) -> (r: Vec<Book>)
        ensures
            forall|i: int, j: int| 0 <= i < j < r@.len() ==> r@[i]@.isbn != r@[j]@.isbn,
    {
        let read = self.lock.acquire_read();
        let lib = read.borrow();
        let refs = lib.get_books();
        let out = copy_out(refs);
        proof {
            assert forall|i: int, j: int| 0 <= i < j < out@.len()
                implies out@[i]@.isbn != out@[j]@.isbn by {
                assert(out@[i]@ == refs@[i]@);
                assert(out@[j]@ == refs@[j]@);
            }
        }
        read.release_read();
        out
    }

    /// A snapshot of every stored record whose title or author contains
    /// `query` as a case-sensitive substring.
    pub fn search_book(&self, query: &str) -> (r: Vec<Book>)
        ensures
            forall|i: int| 0 <= i < r@.len() ==> book_matches(#[trigger] r@[i]@, query@),
            forall|i: int, j: int| 0 <= i < j < r@.len() ==> r@[i]@.isbn != r@[j]@.isbn,
    {
        let read = self.lock.acquire_read();
        let lib = read.borrow();
        let refs = lib.search_book(query);
        let out = copy_out(refs);
        proof {
            assert forall|i: int| 0 <= i < out@.len()
                implies book_matches(#[trigger] out@[i]@, query@) by {
                assert(out@[i]@ == refs@[i]@);
                assert(book_matches(refs@[i]@, query@)) by {
                    assert(refs@[i]@.isbn == out@[i]@.isbn);
                }
            }
            assert forall|i: int, j: int| 0 <= i < j < out@.len()
                implies out@[i]@.isbn != out@[j]@.isbn by {
                assert(out@[i]@ == refs@[i]@);
                assert(out@[j]@ == refs@[j]@);
            }
        }
        read.release_read();
        out
    }
}

/// Field-for-field copies of the referenced records, in order.
fn copy_out(refs: Vec<&Book>) -> (out: Vec<Book>)
    ensures
        out@.len() == refs@.len(),
        forall|i: int| 0 <= i < refs@.len() ==> out@[i]@ == #[trigger] refs@[i]@,
{
    let mut out: Vec<Book> = Vec::new();
    let mut i: usize = 0;
    while i < refs.len()
        invariant
            i <= refs@.len(),
            out@.len() == i,
            forall|j: int| 0 <= j < i ==> out@[j]@ == #[trigger] refs@[j]@,
        decreases refs@.len() - i,
    {
        out.push(refs[i].duplicate());
        i += 1;
    }
    out
}

} // verus!
