//! The catalog: an in-memory store of books keyed by identifier.
//!
//! The store is a sequence of records whose identifiers are pairwise
//! distinct; its view is the map from identifier to record that the
//! sequence denotes. Every operation is a single step on that map:
//! insertion refuses duplicates, lookup and deletion report whether the
//! identifier was present, enumeration and search return each stored
//! record at most once.

use vstd::prelude::*;

verus! {

use crate::book::{Book, BookView, LibraryResult};
use crate::store::{
    book_views, catalog_of, distinct_isbns, lemma_catalog_contains, lemma_catalog_index,
    lemma_catalog_len, lemma_catalog_push, lemma_catalog_remove, lemma_distinct_remove,
};
use crate::text::{contains_substring, is_substring_of, str_eq};

/// A record matches a query when the query occurs in its title or in its
/// author, case-sensitively. The empty query matches every record.
pub open spec fn book_matches(b: BookView, q: Seq<char>) -> bool {
    is_substring_of(q, b.title) || is_substring_of(q, b.author)
}

/// The in-memory catalog of books, keyed by identifier.
pub struct Library {
    books: Vec<Book>,
}

impl View for Library {
    type V = Map<Seq<char>, BookView>;

    /// The map from identifier to stored record.
    closed spec fn view(&self) -> Map<Seq<char>, BookView> {
        catalog_of(book_views(self.books@))
    }
}

impl Library {
    /// The store's invariant: no two records share an identifier.
    /// Every constructor establishes it and every operation preserves it.
    pub closed spec fn wf(&self) -> bool {
        distinct_isbns(book_views(self.books@))
    }

    /// A new catalog holds nothing.
    pub fn new() -> (lib: Library)
        ensures
            lib.wf(),
            lib@ == Map::<Seq<char>, BookView>::empty(),
    {
        let lib = Library { books: Vec::new() };
        proof {
            assert(book_views(lib.books@) =~= Seq::<BookView>::empty());
        }
        lib
    }

    /// The position of the record carrying `isbn`, if any.
    fn find_isbn(&self, isbn: &str) -> (r: Option<usize>)
        ensures
            match r {
                Some(i) => i < self.books@.len()
                    && book_views(self.books@)[i as int].isbn == isbn@,
                None => forall|k: int|
                    0 <= k < self.books@.len() ==> book_views(self.books@)[k].isbn != isbn@,
            },
    {
        let mut i: usize = 0;
        while i < self.books.len()
            invariant
                i <= self.books@.len(),
                forall|k: int| 0 <= k < i ==> book_views(self.books@)[k].isbn != isbn@,
            decreases self.books@.len() - i,
        {
            if str_eq(self.books[i].isbn.as_str(), isbn) {
                return Some(i);
            }
            i += 1;
        }
        None
    }

    /// Insert `book` under its identifier. When the identifier is already
    /// taken the store is left unchanged and the insertion is refused:
    /// the catalog never overwrites.
    pub fn add_book(&mut self, book: Book) -> (r: Result<LibraryResult, LibraryResult>)
        requires
            old(self).wf(),
        ensures
            final(self).wf(),
            old(self)@.contains_key(book@.isbn) ==> (r matches Err(LibraryResult::AlreadyExists))
                && final(self)@ == old(self)@,
            !old(self)@.contains_key(book@.isbn) ==> (r matches Ok(LibraryResult::BookAdded))
                && final(self)@ == old(self)@.insert(book@.isbn, book@),
    {
        let ghost s = book_views(self.books@);
        match self.find_isbn(book.isbn.as_str()) {
            Some(_) => {
                proof {
                    lemma_catalog_contains(s, book@.isbn);
                }
                Err(LibraryResult::AlreadyExists)
            }
            None => {
                proof {
                    lemma_catalog_contains(s, book@.isbn);
                    lemma_catalog_push(s, book@);
                }
                let ghost bv = book@;
                self.books.push(book);
                proof {
                    assert(book_views(self.books@) =~= s.push(bv));
                    assert(distinct_isbns(s.push(bv))) by {
                        assert forall|p: int, q: int|
                            0 <= p < q < s.push(bv).len()
                                implies s.push(bv)[p].isbn != s.push(bv)[q].isbn by {
                            if q < s.len() {
                                assert(s[p].isbn != s[q].isbn);
                            } else {
                                assert(s.push(bv)[q] == bv);
                                assert(s[p].isbn != bv.isbn);
                            }
                        }
                    }
                }
                Ok(LibraryResult::BookAdded)
            }
        }
    }

    /// Look up the record stored under `isbn`. A pure lookup: the caller
    /// receives a read-only reference and the store is untouched.
    pub fn get_book(&self, isbn: &str) -> (r: Result<&Book, LibraryResult>)
        requires
            self.wf(),
        ensures
            self@.contains_key(isbn@) ==> (r matches Ok(b) && b@ == self@[isbn@]),
            !self@.contains_key(isbn@) ==> (r matches Err(LibraryResult::DoesNotExist)),
    {
        let ghost s = book_views(self.books@);
        proof {
            lemma_catalog_contains(s, isbn@);
        }
        match self.find_isbn(isbn) {
            Some(i) => {
                proof {
                    lemma_catalog_index(s, i as int);
                }
                Ok(&self.books[i])
            }
            None => Err(LibraryResult::DoesNotExist),
        }
    }

    /// Delete the record stored under `isbn`, reporting whether one was
    /// there. Deleting an absent identifier leaves the store unchanged.
    pub fn remove_book(&mut self, isbn: &str) -> (r: Result<String, String>)
        requires
            old(self).wf(),
        ensures
            final(self).wf(),
            old(self)@.contains_key(isbn@) ==> (r matches Ok(m) && m@ == "Removed"@)
                && final(self)@ == old(self)@.remove(isbn@),
            !old(self)@.contains_key(isbn@) ==> (r matches Err(m) && m@ == "Nonexistant"@)
                && final(self)@ == old(self)@,
    {
        let ghost s = book_views(self.books@);
        proof {
            lemma_catalog_contains(s, isbn@);
        }
        match self.find_isbn(isbn) {
            Some(i) => {
                proof {
                    lemma_catalog_remove(s, i as int);
                    lemma_distinct_remove(s, i as int);
                }
                self.books.remove(i);
                proof {
                    assert(book_views(self.books@) =~= s.remove(i as int));
                }
                Ok("Removed".to_owned())
            }
            None => Err("Nonexistant".to_owned()),
        }
    }

    /// Every stored record, each exactly once, in no promised order.
    pub fn get_books(&self) -> (r: Vec<&Book>)
        requires
            self.wf(),
        ensures
            r@.len() == self@.dom().len(),
            forall|i: int| 0 <= i < r@.len()
                ==> self@.contains_key(#[trigger] r@[i]@.isbn) && self@[r@[i]@.isbn] == r@[i]@,
            forall|i: int, j: int| 0 <= i < j < r@.len() ==> r@[i]@.isbn != r@[j]@.isbn,
            forall|k: Seq<char>| self@.contains_key(k)
                ==> exists|i: int| 0 <= i < r@.len() && #[trigger] r@[i]@.isbn == k,
    {
        let ghost s = book_views(self.books@);
        let mut r: Vec<&Book> = Vec::new();
        let mut i: usize = 0;
        while i < self.books.len()
            invariant
                self.wf(),
                s == book_views(self.books@),
                i <= self.books@.len(),
                r@.len() == i,
                forall|j: int| 0 <= j < i ==> #[trigger] r@[j]@ == s[j],
            decreases self.books@.len() - i,
        {
            let b: &Book = &self.books[i];
            r.push(b);
            i += 1;
        }
        proof {
            lemma_catalog_len(s);
            assert forall|j: int| 0 <= j < r@.len()
                implies self@.contains_key(#[trigger] r@[j]@.isbn)
                    && self@[r@[j]@.isbn] == r@[j]@ by {
                lemma_catalog_index(s, j);
            }
            assert forall|p: int, q: int| 0 <= p < q < r@.len()
                implies r@[p]@.isbn != r@[q]@.isbn by {
                assert(s[p].isbn != s[q].isbn);
            }
            assert forall|k: Seq<char>| self@.contains_key(k)
                implies exists|j: int| 0 <= j < r@.len() && #[trigger] r@[j]@.isbn == k by {
                lemma_catalog_contains(s, k);
                let j = choose|j: int| 0 <= j < s.len() && s[j].isbn == k;
                assert(r@[j]@.isbn == k);
            }
        }
        r
    }

    /// Every stored record whose title or author contains `query` as a
    /// case-sensitive substring, each exactly once; no ranking. The empty
    /// query returns every record.
    pub fn search_book(&self, query: &str) -> (r: Vec<&Book>)
        requires
            self.wf(),
        ensures
            forall|i: int| 0 <= i < r@.len()
                ==> self@.contains_key(#[trigger] r@[i]@.isbn)
                    && self@[r@[i]@.isbn] == r@[i]@
                    && book_matches(r@[i]@, query@),
            forall|i: int, j: int| 0 <= i < j < r@.len() ==> r@[i]@.isbn != r@[j]@.isbn,
            forall|k: Seq<char>| self@.contains_key(k) && book_matches(self@[k], query@)
                ==> exists|i: int| 0 <= i < r@.len() && #[trigger] r@[i]@.isbn == k,
    {
        let ghost s = book_views(self.books@);
        let mut r: Vec<&Book> = Vec::new();
        let mut i: usize = 0;
        while i < self.books.len()
            invariant
                self.wf(),
                s == book_views(self.books@),
                i <= self.books@.len(),
                forall|j: int| #![trigger r@[j]] 0 <= j < r@.len()
                    ==> exists|k: int| 0 <= k < i && r@[j]@ == s[k],
                forall|j: int| #![trigger r@[j]] 0 <= j < r@.len()
                    ==> book_matches(r@[j]@, query@),
                forall|p: int, q: int| 0 <= p < q < r@.len() ==> r@[p]@.isbn != r@[q]@.isbn,
                forall|k: int| #![trigger s[k]] 0 <= k < i && book_matches(s[k], query@)
                    ==> exists|j: int| 0 <= j < r@.len() && r@[j]@ == s[k],
            decreases self.books@.len() - i,
        {
            let ghost r_snap = r@;
            let b: &Book = &self.books[i];
            let hit = contains_substring(b.title.as_str(), query)
                || contains_substring(b.author.as_str(), query);
            if hit {
                proof {
                    assert(b@ == s[i as int]);
                    assert(book_matches(s[i as int], query@));
                    assert forall|j: int| 0 <= j < r@.len()
                        implies r@[j]@.isbn != s[i as int].isbn by {
                        let k = choose|k: int| 0 <= k < i && r@[j]@ == s[k];
                        assert(s[k].isbn != s[i as int].isbn);
                    }
                }
                r.push(b);
                proof {
                    assert(r@ == r_snap.push(b));
                    assert(r@[r@.len() - 1]@ == s[i as int]);
                    assert forall|j: int| #![trigger r@[j]] 0 <= j < r@.len()
                        implies exists|k: int| 0 <= k < i + 1 && r@[j]@ == s[k] by {
                        if j < r_snap.len() {
                            assert(r@[j] == r_snap[j]);
                            let k = choose|k: int| 0 <= k < i && r_snap[j]@ == s[k];
                            assert(0 <= k < i + 1 && r@[j]@ == s[k]);
                        } else {
                            assert(r@[j]@ == s[i as int]);
                            assert(0 <= i < i + 1 && r@[j]@ == s[i as int]);
                        }
                    }
                    assert forall|k: int| #![trigger s[k]] 0 <= k < i + 1
                        && book_matches(s[k], query@)
                        implies exists|j: int| 0 <= j < r@.len() && r@[j]@ == s[k] by {
                        if k < i {
                            let j = choose|j: int| 0 <= j < r_snap.len() && r_snap[j]@ == s[k];
                            assert(r@[j] == r_snap[j]);
                            assert(0 <= j < r@.len() && r@[j]@ == s[k]);
                        } else {
                            let j = r@.len() - 1;
                            assert(0 <= j < r@.len() && r@[j]@ == s[k]);
                        }
                    }
                }
            } else {
                proof {
                    assert(b@ == s[i as int]);
                    assert(!book_matches(s[i as int], query@));
                    assert forall|k: int| #![trigger s[k]] 0 <= k < i + 1
                        && book_matches(s[k], query@)
                        implies exists|j: int| 0 <= j < r@.len() && r@[j]@ == s[k] by {
                        assert(k != i);
                    }
                }
            }
            i += 1;
        }
        proof {
            assert(i == s.len());
            assert forall|j: int| 0 <= j < r@.len()
                implies self@.contains_key(#[trigger] r@[j]@.isbn)
                    && self@[r@[j]@.isbn] == r@[j]@
                    && book_matches(r@[j]@, query@) by {
                let k = choose|k: int| 0 <= k < i && r@[j]@ == s[k];
                lemma_catalog_index(s, k);
            }
            assert forall|k: Seq<char>| self@.contains_key(k) && book_matches(self@[k], query@)
                implies exists|i0: int| 0 <= i0 < r@.len() && #[trigger] r@[i0]@.isbn == k by {
                lemma_catalog_contains(s, k);
                let j = choose|j: int| 0 <= j < s.len() && s[j].isbn == k;
                lemma_catalog_index(s, j);
                assert(book_matches(s[j], query@));
                let j2 = choose|j2: int| 0 <= j2 < r@.len() && r@[j2]@ == s[j];
                assert(r@[j2]@.isbn == k);
            }
        }
        r
    }
}

} // verus!
