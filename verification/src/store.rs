//! The abstract model of the catalog's store.
//!
//! The executable store keeps its records in a sequence with pairwise
//! distinct identifiers; its contracts speak of the map from identifier to
//! record that the sequence denotes. [`catalog_of`] builds that map, and
//! the lemmas here say how it moves under push, removal and lookup.

use vstd::prelude::*;

verus! {

use crate::book::{Book, BookView};

/// The views of the records of `s`, in order.
pub open spec fn book_views(s: Seq<Book>) -> Seq<BookView> {
    s.map_values(|b: Book| b@)
}

/// No two records of `s` share an identifier.
pub open spec fn distinct_isbns(s: Seq<BookView>) -> bool {
    forall|i: int, j: int| 0 <= i < j < s.len() ==> s[i].isbn != s[j].isbn
}

/// The map from identifier to record that the sequence `s` denotes.
pub open spec fn catalog_of(s: Seq<BookView>) -> Map<Seq<char>, BookView>
    decreases s.len(),
{
    if s.len() == 0 {
        Map::empty()
    } else {
        catalog_of(s.drop_last()).insert(s.last().isbn, s.last())
    }
}

/// An identifier is in the catalog exactly when some record of the
/// sequence carries it.
pub proof fn lemma_catalog_contains(s: Seq<BookView>, k: Seq<char>)
    ensures
        catalog_of(s).contains_key(k) <==> exists|i: int| 0 <= i < s.len() && s[i].isbn == k,
    decreases s.len(),
{
    if s.len() > 0 {
        lemma_catalog_contains(s.drop_last(), k);
        if s.last().isbn == k {
            assert(s[s.len() - 1].isbn == k);
        } else {
            if catalog_of(s).contains_key(k) {
                let i = choose|i: int| 0 <= i < s.drop_last().len() && s.drop_last()[i].isbn == k;
                assert(s[i].isbn == k);
            }
            if exists|i: int| 0 <= i < s.len() && s[i].isbn == k {
                let i = choose|i: int| 0 <= i < s.len() && s[i].isbn == k;
                assert(s.drop_last()[i].isbn == k);
            }
        }
    }
}

/// Under distinct identifiers, the catalog maps each record's identifier
/// to that record.
pub proof fn lemma_catalog_index(s: Seq<BookView>, i: int)
    requires
        distinct_isbns(s),
        0 <= i < s.len(),
    ensures
        catalog_of(s).contains_key(s[i].isbn),
        catalog_of(s)[s[i].isbn] == s[i],
    decreases s.len(),
{
    lemma_catalog_contains(s, s[i].isbn);
    if i < s.len() - 1 {
        assert(s[i].isbn != s.last().isbn);
        assert(distinct_isbns(s.drop_last())) by {
            assert(forall|p: int, q: int|
                0 <= p < q < s.drop_last().len() ==> s.drop_last()[p].isbn != s.drop_last()[q].isbn);
        }
        assert(s.drop_last()[i] == s[i]);
        lemma_catalog_index(s.drop_last(), i);
    }
}

/// Under distinct identifiers, the catalog has exactly one entry per
/// record of the sequence.
pub proof fn lemma_catalog_len(s: Seq<BookView>)
    requires
        distinct_isbns(s),
    ensures
        catalog_of(s).dom().finite(),
        catalog_of(s).dom().len() == s.len(),
    decreases s.len(),
{
    if s.len() > 0 {
        assert(distinct_isbns(s.drop_last()));
        lemma_catalog_len(s.drop_last());
        lemma_catalog_contains(s.drop_last(), s.last().isbn);
        assert(!catalog_of(s.drop_last()).contains_key(s.last().isbn)) by {
            if exists|i: int| 0 <= i < s.drop_last().len() && s.drop_last()[i].isbn == s.last().isbn {
                let i = choose|i: int|
                    0 <= i < s.drop_last().len() && s.drop_last()[i].isbn == s.last().isbn;
                assert(s[i].isbn == s[s.len() - 1].isbn);
            }
        }
    }
}

/// Appending a record with a fresh identifier inserts it into the catalog.
pub proof fn lemma_catalog_push(s: Seq<BookView>, b: BookView)
    ensures
        catalog_of(s.push(b)) == catalog_of(s).insert(b.isbn, b),
{
    assert(s.push(b).drop_last() =~= s);
    assert(s.push(b).last() == b);
}

/// Removing the record at `i` removes exactly its identifier from the
/// catalog, when identifiers are distinct.
pub proof fn lemma_catalog_remove(s: Seq<BookView>, i: int)
    requires
        distinct_isbns(s),
        0 <= i < s.len(),
    ensures
        catalog_of(s.remove(i)) =~= catalog_of(s).remove(s[i].isbn),
    decreases s.len(),
{
    if i == s.len() - 1 {
        assert(s.remove(i) =~= s.drop_last());
        lemma_catalog_contains(s.drop_last(), s[i].isbn);
        assert(!catalog_of(s.drop_last()).contains_key(s[i].isbn)) by {
            if exists|j: int| 0 <= j < s.drop_last().len() && s.drop_last()[j].isbn == s[i].isbn {
                let j = choose|j: int|
                    0 <= j < s.drop_last().len() && s.drop_last()[j].isbn == s[i].isbn;
                assert(s[j].isbn == s[i].isbn);
            }
        }
        assert(catalog_of(s.drop_last()).insert(s[i].isbn, s[i]).remove(s[i].isbn)
            =~= catalog_of(s.drop_last()));
    } else {
        assert(distinct_isbns(s.drop_last()));
        lemma_catalog_remove(s.drop_last(), i);
        assert(s.remove(i).drop_last() =~= s.drop_last().remove(i));
        assert(s.remove(i).last() == s.last());
        assert(s[i].isbn != s.last().isbn);
        assert(catalog_of(s.remove(i))
            == catalog_of(s.drop_last().remove(i)).insert(s.last().isbn, s.last()));
        assert(catalog_of(s.drop_last()).remove(s[i].isbn).insert(s.last().isbn, s.last())
            =~= catalog_of(s.drop_last()).insert(s.last().isbn, s.last()).remove(s[i].isbn));
    }
}

/// Removing a record keeps the remaining identifiers distinct.
pub proof fn lemma_distinct_remove(s: Seq<BookView>, i: int)
    requires
        distinct_isbns(s),
        0 <= i < s.len(),
    ensures
        distinct_isbns(s.remove(i)),
{
    assert forall|p: int, q: int|
        0 <= p < q < s.remove(i).len() implies s.remove(i)[p].isbn != s.remove(i)[q].isbn by {
        let p0: int = if p < i { p } else { p + 1 };
        let q0: int = if q < i { q } else { q + 1 };
        assert(s.remove(i)[p] == s[p0]);
        assert(s.remove(i)[q] == s[q0]);
    }
}

} // verus!
