//! The laws of the catalog, stated over its abstract map model.
//!
//! Each operation's own contract speaks of one call; the proofs here state
//! what holds across calls: insertion never disturbs other entries, an
//! inserted record is exactly what a lookup then returns, a deleted
//! identifier stays gone, and the empty query matches every record.

use vstd::prelude::*;

verus! {

use crate::book::BookView;
use crate::library::book_matches;
use crate::text::matches_at;

/// Uniqueness: the record stored by a successful insertion is retained,
/// unchanged, by any later successful insertion, which always carries a
/// different identifier. A later insertion under the same identifier is
/// refused with the store unchanged, by the contract of the insertion
/// itself; so the store keeps the record of the first call.
pub proof fn lemma_add_retains_earlier(m: Map<Seq<char>, BookView>, b1: BookView, b2: BookView)
    requires
        m.contains_key(b1.isbn),
        m[b1.isbn] == b1,
        b2.isbn != b1.isbn,
    ensures
        m.insert(b2.isbn, b2).contains_key(b1.isbn),
        m.insert(b2.isbn, b2)[b1.isbn] == b1,
{
}

/// Round-trip: after a successful insertion of a record, a lookup of its
/// identifier finds exactly that record, whatever the store held before.
pub proof fn lemma_add_then_get(m: Map<Seq<char>, BookView>, b: BookView)
    ensures
        m.insert(b.isbn, b).contains_key(b.isbn),
        m.insert(b.isbn, b)[b.isbn] == b,
{
}

/// Remove idempotence: a deletion takes its identifier out of the store,
/// so a second deletion of the same identifier finds nothing and leaves
/// the store exactly as the first deletion left it.
pub proof fn lemma_remove_then_remove(m: Map<Seq<char>, BookView>, k: Seq<char>)
    ensures
        !m.remove(k).contains_key(k),
        m.remove(k).remove(k) == m.remove(k),
{
    assert(m.remove(k).remove(k) =~= m.remove(k));
}

/// The empty query matches every record: it occurs in every title. A
/// search with the empty query therefore returns every stored record.
pub proof fn lemma_empty_query_matches_all(b: BookView)
    ensures
        book_matches(b, Seq::<char>::empty()),
{
    assert(b.title.subrange(0, 0) =~= Seq::<char>::empty());
    assert(matches_at(Seq::<char>::empty(), b.title, 0));
}

} // verus!
