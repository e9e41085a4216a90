//! Keeping the cache in step with the store: what a write has to make the
//! cache forget, and why the cache is then true of the new store.

use crate::cache::{has_prefix, within, without_prefix, Cache};
use crate::cached::{
    book_average, book_average_key, coherent, entry_in_step, holds, lemma_search_key_prefix,
    AUTHORS_SUMMARY_CACHE_KEY, SEARCH_KEY_PREFIX,
};
use crate::changes::{review_not_of, without_book, without_books};
use crate::db::AppState;
use crate::entries::{entry_read, CacheEntryView};
use crate::measures::{one_for_book, score_for_book};
use crate::models::ReviewView;
use crate::object_id::{hex_of, ObjectId};
use crate::search::SearchEngine;
use crate::seqs::{lemma_sum_filter_same, lemma_sum_push, lemma_sum_remove, lemma_sum_update};
use crate::store::StoreView;
use vstd::prelude::*;

verus! {

/// Whether the cache holds neither the summary of the authors nor a page
/// of a search.
pub open spec fn reports_forgotten(entries: Map<Seq<char>, Seq<u8>>) -> bool {
    &&& !entries.contains_key(AUTHORS_SUMMARY_CACHE_KEY@)
    &&& forall|k: Seq<char>| #[trigger] entries.contains_key(k) ==> !has_prefix(
        k,
        SEARCH_KEY_PREFIX@,
    )
}

/// `m` without the summary of the authors and without the pages of the
/// searches.
pub open spec fn without_reports(m: Map<Seq<char>, Seq<u8>>) -> Map<Seq<char>, Seq<u8>> {
    without_prefix(m.remove(AUTHORS_SUMMARY_CACHE_KEY@), SEARCH_KEY_PREFIX@)
}

/// `m` without the mean score of `book`.
pub open spec fn without_average(m: Map<Seq<char>, Seq<u8>>, book: ObjectId) -> Map<
    Seq<char>,
    Seq<u8>,
> {
    m.remove(book_average_key(hex_of(book.bytes@)))
}

/// `m` without the mean scores of `books`.
pub open spec fn without_averages(m: Map<Seq<char>, Seq<u8>>, books: Seq<ObjectId>) -> Map<
    Seq<char>,
    Seq<u8>,
>
    decreases books.len(),
{
    if books.len() == 0 {
        m
    } else {
        without_average(without_averages(m, books.drop_last()), books.last())
    }
}

/// After a write, a cache that forgot the summary, the search pages and
/// the mean score of every book whose mean changed is in step with the new
/// store.
pub proof fn lemma_coherent_after_write(
    before: Map<Seq<char>, Seq<u8>>,
    after: Map<Seq<char>, Seq<u8>>,
    old_store: StoreView,
    new_store: StoreView,
)
    requires
        coherent(before, old_store),
        within(after, before),
        reports_forgotten(after),
        forall|b: ObjectId|
            book_average(new_store.reviews, b) != book_average(old_store.reviews, b)
                ==> !after.contains_key(#[trigger] book_average_key(hex_of(b.bytes@))),
    ensures
        coherent(after, new_store),
{
    assert forall|k: Seq<char>| #[trigger] after.contains_key(k) implies entry_in_step(
        new_store,
        k,
        entry_read(after[k]),
    ) by {
        assert(before.contains_key(k) && before[k] == after[k]);
        assert(entry_in_step(old_store, k, entry_read(before[k])));
        match entry_read(after[k]) {
            Some(e) => {
                match e {
                    CacheEntryView::Summary(_) => {},
                    CacheEntryView::BookAverage { book, average } => {
                        assert(k == book_average_key(hex_of(book.bytes@)));
                    },
                    CacheEntryView::Search { words, page, per_page, found } => {
                        lemma_search_key_prefix(words, page, per_page);
                    },
                }
            },
            None => {},
        }
    }
}

/// A new review leaves the mean scores of the other books as they were.
pub proof fn lemma_average_with_review(reviews: Seq<ReviewView>, r: ReviewView, b: ObjectId)
    requires
        b != r.book_id,
    ensures
        book_average(reviews.push(r), b) == book_average(reviews, b),
{
    lemma_sum_push(reviews, r, one_for_book(b));
    lemma_sum_push(reviews, r, score_for_book(b));
}

/// A changed review leaves the mean scores of the books that it neither
/// had nor has as they were.
pub proof fn lemma_average_with_review_at(
    reviews: Seq<ReviewView>,
    at: int,
    r: ReviewView,
    b: ObjectId,
)
    requires
        0 <= at < reviews.len(),
        b != r.book_id,
        b != reviews[at].book_id,
    ensures
        book_average(reviews.update(at, r), b) == book_average(reviews, b),
{
    lemma_sum_update(reviews, at, r, one_for_book(b));
    lemma_sum_update(reviews, at, r, score_for_book(b));
}

/// A review that went leaves the mean scores of the other books as they
/// were.
pub proof fn lemma_average_without_review_at(reviews: Seq<ReviewView>, at: int, b: ObjectId)
    requires
        0 <= at < reviews.len(),
        b != reviews[at].book_id,
    ensures
        book_average(reviews.remove(at), b) == book_average(reviews, b),
{
    lemma_sum_remove(reviews, at, one_for_book(b));
    lemma_sum_remove(reviews, at, score_for_book(b));
}

/// A book that went leaves the mean scores of the other books as they
/// were.
pub proof fn lemma_average_without_book(st: StoreView, gone: ObjectId, b: ObjectId)
    requires
        b != gone,
    ensures
        book_average(without_book(st, gone).reviews, b) == book_average(st.reviews, b),
{
    lemma_sum_filter_same(st.reviews, review_not_of(gone), one_for_book(b));
    lemma_sum_filter_same(st.reviews, review_not_of(gone), score_for_book(b));
}

/// Books that went leave the mean scores of the other books as they were.
pub proof fn lemma_average_without_books(st: StoreView, gone: Seq<ObjectId>, b: ObjectId)
    requires
        !gone.contains(b),
    ensures
        book_average(without_books(st, gone).reviews, b) == book_average(st.reviews, b),
        without_books(st, gone).authors == st.authors,
    decreases gone.len(),
{
    if gone.len() > 0 {
        assert(gone[0] != b);
        assert forall|i: int| 0 <= i < gone.drop_first().len() implies gone.drop_first()[i]
            != b by {
            assert(gone.drop_first()[i] == gone[i + 1]);
        }
        lemma_average_without_book(st, gone[0], b);
        lemma_average_without_books(without_book(st, gone[0]), gone.drop_first(), b);
    }
}

impl<C: Cache, S: SearchEngine> AppState<C, S> {
    /// Makes the cache forget `key`.
    pub fn cache_del_key(&mut self, key: &str)
        ensures
            final(self).store() == old(self).store(),
            final(self).index() == old(self).index(),
            within(final(self).cached(), old(self).cached()),
            !final(self).cached().contains_key(key@),
            final(self).cache_is_exact() == old(self).cache_is_exact(),
            final(self).cached() == old(self).cached().remove(key@),
    {
        self.cache.del(key);
    }

    /// Makes the cache forget every key that starts with `prefix`.
    pub fn cache_del_pref(&mut self, prefix: &str)
        ensures
            final(self).store() == old(self).store(),
            final(self).index() == old(self).index(),
            within(final(self).cached(), old(self).cached()),
            forall|k: Seq<char>| #[trigger]
                final(self).cached().contains_key(k) ==> !has_prefix(k, prefix@),
            final(self).cache_is_exact() == old(self).cache_is_exact(),
            final(self).cached() == without_prefix(
                old(self).cached(),
                prefix@,
            ),
    {
        self.cache.del_prefix(prefix);
    }

    /// Makes the cache forget the summary of the authors and every page of
    /// a search.
    pub fn forget_reports(&mut self)
        ensures
            final(self).store() == old(self).store(),
            final(self).index() == old(self).index(),
            within(final(self).cached(), old(self).cached()),
            reports_forgotten(final(self).cached()),
            final(self).cache_is_exact() == old(self).cache_is_exact(),
            final(self).cached() == without_reports(
                old(self).cached(),
            ),
    {
        self.cache_del_key(AUTHORS_SUMMARY_CACHE_KEY);
        self.cache_del_pref(SEARCH_KEY_PREFIX);
    }

    /// Makes the cache forget the mean score of `book`.
    pub fn forget_average(&mut self, book: &ObjectId)
        ensures
            final(self).store() == old(self).store(),
            final(self).index() == old(self).index(),
            within(final(self).cached(), old(self).cached()),
            !final(self).cached().contains_key(book_average_key(hex_of(book.bytes@))),
            final(self).cache_is_exact() == old(self).cache_is_exact(),
            final(self).cached() == without_average(
                old(self).cached(),
                *book,
            ),
    {
        let key = Self::key_book_avg(book.to_hex().as_str());
        self.cache_del_key(key.as_str());
    }
}

} // verus!
