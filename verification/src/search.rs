//! The search index: an outside index of books and reviews that is told of
//! every write, and asked for ranked hits.

use crate::indexing::IndexChangeView;
use crate::models::{BookSearchDoc, ReviewSearchDoc};
use vstd::prelude::*;

verus! {

/// A hit of the index: the identifier of a document, its kind (`book` or
/// `review`), its rank in thousandths, and the passage that matched, if
/// the index gives one.
#[derive(Debug, Clone)]
pub struct SearchHit {
    pub id: String,
    pub kind: String,
    pub score_milli: i64,
    pub highlight: Option<String>,
}

/// A search index. Nothing is promised of what an index keeps or finds: a
/// write may be lost, and a search may come back empty. What an index does
/// promise of a write it says in `took`.
pub trait SearchEngine: Sized {
    /// Whether this index is what `before` becomes when it is told of
    /// `change`. An index that promises nothing of its writes leaves this
    /// as it is: true of any two indexes.
    open spec fn took(&self, before: &Self, change: IndexChangeView) -> bool {
        true
    }

    /// Puts the book into the index, in place of what the index held under
    /// its identifier.
    fn upsert_book(&mut self, doc: &BookSearchDoc)
        ensures
            final(self).took(old(self), IndexChangeView::PutBook(doc@)),
    ;

    /// Takes the book `book_id` out of the index.
    fn delete_book(&mut self, book_id: &str)
        ensures
            final(self).took(old(self), IndexChangeView::DropBook(book_id@)),
    ;

    /// Puts the review into the index, in place of what the index held
    /// under its identifier.
    fn upsert_review(&mut self, doc: &ReviewSearchDoc)
        ensures
            final(self).took(old(self), IndexChangeView::PutReview(doc@)),
    ;

    /// Takes the review `review_id` out of the index.
    fn delete_review(&mut self, review_id: &str)
        ensures
            final(self).took(old(self), IndexChangeView::DropReview(review_id@)),
    ;

    /// At most `limit` hits for `q`, the best first.
    fn search(&self, q: &str, limit: usize) -> (out: Vec<SearchHit>);
}

/// Whether `after` is what the index `before` becomes when it is told of
/// `changes`, one after the other.
pub open spec fn took_all<S: SearchEngine>(
    after: S,
    before: S,
    changes: Seq<IndexChangeView>,
) -> bool
    decreases changes.len(),
{
    if changes.len() == 0 {
        after == before
    } else {
        exists|mid: S|
            #![trigger after.took(&mid, changes.last())]
            took_all(mid, before, changes.drop_last()) && after.took(&mid, changes.last())
    }
}

/// An index that was told of `changes` and then of `change` was told of
/// `changes.push(change)`.
pub proof fn lemma_took_one_more<S: SearchEngine>(
    after: S,
    mid: S,
    before: S,
    changes: Seq<IndexChangeView>,
    change: IndexChangeView,
)
    requires
        took_all(mid, before, changes),
        after.took(&mid, change),
    ensures
        took_all(after, before, changes.push(change)),
{
    let all = changes.push(change);
    assert(all.drop_last() =~= changes);
    assert(took_all(mid, before, all.drop_last()) && after.took(&mid, all.last()));
}

/// The index that keeps nothing: every search comes back empty.
pub struct NullSearchEngine;

impl SearchEngine for NullSearchEngine {
    fn upsert_book(&mut self, doc: &BookSearchDoc) {
    }

    fn delete_book(&mut self, book_id: &str) {
    }

    fn upsert_review(&mut self, doc: &ReviewSearchDoc) {
    }

    fn delete_review(&mut self, review_id: &str) {
    }

    fn search(&self, q: &str, limit: usize) -> (out: Vec<SearchHit>)
        ensures
            out@.len() == 0,
    {
        Vec::new()
    }
}

} // verus!
