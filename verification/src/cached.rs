//! Reports served through the cache, and the rule that ties the cache to
//! the store: whatever the cache can serve is true of the store.

use crate::cache::{has_prefix, within, Cache};
use crate::db::{assemble, authors_summary, AppState};
use crate::entries::{
    counts_fit, decode_entry, encode_entry, entry_bytes, entry_fits, entry_read,
    lemma_entry_round_trip, CacheEntry, CacheEntryView,
};
use crate::measures::{book_review_count, book_score_total, reviews_of_book};
use crate::models::{AuthorSummary, Average, PaginatedSearchResults, ReviewView};
use crate::object_id::{hex_of, ObjectId};
use crate::search::SearchEngine;
use crate::search_query::{query_words, search_answer, search_page, words_of, AggregationError};
use crate::seqs::views;
use crate::store::{same_id, StoreView};
use crate::text::{chars_of, join_spaced, number, number_text, spaced, string_of};
use vstd::prelude::*;
use vstd::string::StringExecFns;

verus! {

/// The key of the summary of the authors.
pub const AUTHORS_SUMMARY_CACHE_KEY: &'static str = "authors:summary";

/// The prefix of the keys of the search pages.
pub const SEARCH_KEY_PREFIX: &'static str = "search:books:";

/// The seconds for which a summary of the authors is served.
pub const SUMMARY_TTL: u64 = 300;

/// The seconds for which the mean score of a book is served.
pub const AVERAGE_TTL: u64 = 60;

/// The seconds for which a search page is served.
pub const SEARCH_TTL: u64 = 120;

/// The key of the mean score of the book whose identifier in hex is `hex`.
pub open spec fn book_average_key(hex: Seq<char>) -> Seq<char> {
    "book:"@ + hex + ":avg_score"@
}

/// The key of a page of a search: the words with a space between each two,
/// then the page number and the page size.
pub open spec fn search_key(words: Seq<Seq<char>>, page: i64, per_page: i64) -> Seq<char> {
    SEARCH_KEY_PREFIX@ + spaced(words) + seq![':'] + number_text(page as int) + seq![':']
        + number_text(per_page as int)
}

/// The key under which an entry belongs.
pub open spec fn key_of(e: CacheEntryView) -> Seq<char> {
    match e {
        CacheEntryView::Summary(_) => AUTHORS_SUMMARY_CACHE_KEY@,
        CacheEntryView::BookAverage { book, average } => book_average_key(hex_of(book.bytes@)),
        CacheEntryView::Search { words, page, per_page, found } => search_key(
            words,
            page,
            per_page,
        ),
    }
}

/// The key of a search page starts with the prefix of the search keys.
pub proof fn lemma_search_key_prefix(words: Seq<Seq<char>>, page: i64, per_page: i64)
    ensures
        has_prefix(search_key(words, page, per_page), SEARCH_KEY_PREFIX@),
{
    let key = search_key(words, page, per_page);
    assert(key.take(SEARCH_KEY_PREFIX@.len() as int) =~= SEARCH_KEY_PREFIX@);
}

/// The mean score of the reviews of `book`: the sum and the number of
/// their scores.
pub open spec fn book_average(reviews: Seq<ReviewView>, book: ObjectId) -> Average {
    Average {
        total: book_score_total(reviews, book) as i64,
        count: book_review_count(reviews, book) as i64,
    }
}

/// Whether an entry is true of the store.
pub open spec fn holds(st: StoreView, e: CacheEntryView) -> bool {
    match e {
        CacheEntryView::Summary(rows) => rows == authors_summary(st),
        CacheEntryView::BookAverage { book, average } => average == book_average(st.reviews, book),
        CacheEntryView::Search { words, page, per_page, found } => page >= 1 && per_page >= 1
            && found == search_page(st, words, page as int, per_page as int),
    }
}

/// Whether what was read under the key `k` is nothing, or an entry that
/// belongs under `k` and is true of the store.
pub open spec fn entry_in_step(st: StoreView, k: Seq<char>, read: Option<CacheEntryView>) -> bool {
    read matches Some(e) ==> key_of(e) == k && holds(st, e)
}

/// Whether the cache is in step with the store: every entry that it can
/// serve stands under its own key and is true of the store.
pub open spec fn coherent(entries: Map<Seq<char>, Seq<u8>>, st: StoreView) -> bool {
    forall|k: Seq<char>| #[trigger]
        entries.contains_key(k) ==> entry_in_step(st, k, entry_read(entries[k]))
}

/// An empty cache is in step with every store, and a cache stays in step
/// when it forgets.
pub proof fn lemma_coherent_when_less(
    entries: Map<Seq<char>, Seq<u8>>,
    fewer: Map<Seq<char>, Seq<u8>>,
    st: StoreView,
)
    requires
        coherent(entries, st),
        within(fewer, entries),
    ensures
        coherent(fewer, st),
        coherent(Map::empty(), st),
{
}

/// A cache stays in step when it takes the bytes of an entry that is true
/// of the store under the key of that entry.
pub proof fn lemma_coherent_with_entry(
    entries: Map<Seq<char>, Seq<u8>>,
    next: Map<Seq<char>, Seq<u8>>,
    st: StoreView,
    e: CacheEntryView,
)
    requires
        coherent(entries, st),
        entry_fits(e),
        holds(st, e),
        within(next, entries.insert(key_of(e), entry_bytes(e))),
    ensures
        coherent(next, st),
{
    lemma_entry_round_trip(e);
    let wide = entries.insert(key_of(e), entry_bytes(e));
    assert forall|k: Seq<char>| #[trigger] next.contains_key(k) implies entry_in_step(
        st,
        k,
        entry_read(next[k]),
    ) by {
        assert(wide.contains_key(k) && wide[k] == next[k]);
        if k != key_of(e) {
            assert(entries.contains_key(k) && entries[k] == next[k]);
        }
    }
}

/// Whether the cache, after a report was computed, is as it was or holds
/// at most what it held and `bytes` under `key`.
pub open spec fn kept_or_took(
    before: Map<Seq<char>, Seq<u8>>,
    after: Map<Seq<char>, Seq<u8>>,
    key: Seq<char>,
    bytes: Seq<u8>,
) -> bool {
    after == before || within(after, before.insert(key, bytes))
}

/// A value and whether the cache served it.
pub struct Fetched<T> {
    pub value: T,
    pub from_cache: bool,
}

/// Whether the cache holds a summary of the authors under its key.
pub open spec fn summary_is_cached(entries: Map<Seq<char>, Seq<u8>>) -> bool {
    &&& entries.contains_key(AUTHORS_SUMMARY_CACHE_KEY@)
    &&& entry_read(entries[AUTHORS_SUMMARY_CACHE_KEY@]) is Some
    &&& entry_read(entries[AUTHORS_SUMMARY_CACHE_KEY@])->0 is Summary
}

impl<C: Cache, S: SearchEngine> AppState<C, S> {
    /// The key of the mean score of the book whose identifier in hex is
    /// `book_id`.
    pub fn key_book_avg(book_id: &str) -> (out: String)
        ensures
            out@ == book_average_key(book_id@),
    {
        let mut key = String::from_str("book:");
        key.append(book_id);
        key.append(":avg_score");
        key
    }

    /// The key of page `page` of the search for `words`.
    pub fn key_search(words: &Vec<Vec<char>>, page: i64, per_page: i64) -> (out: String)
        ensures
            out@ == search_key(views(words@), page, per_page),
    {
        let mut key = String::from_str(SEARCH_KEY_PREFIX);
        key.append(string_of(&join_spaced(words)).as_str());
        key.append(":");
        key.append(string_of(&number(page)).as_str());
        key.append(":");
        key.append(string_of(&number(per_page)).as_str());
        proof {
            reveal_strlit(":");
            assert(":"@ =~= seq![':']);
        }
        key
    }

    /// The summary of every author, from the cache where it holds one,
    /// else computed and handed to the cache.
    pub fn get_authors_summary_cached(&mut self) -> (out: Fetched<Vec<AuthorSummary>>)
        requires
            old(self).in_step(),
        ensures
            final(self).store() == old(self).store(),
            final(self).index() == old(self).index(),
            final(self).in_step(),
            final(self).cache_is_exact() == old(self).cache_is_exact(),
            views(out.value@) == authors_summary(old(self).store()),
            out.from_cache ==> summary_is_cached(old(self).cached()) && final(self).cached()
                == old(self).cached(),
            !out.from_cache ==> kept_or_took(
                old(self).cached(),
                final(self).cached(),
                AUTHORS_SUMMARY_CACHE_KEY@,
                entry_bytes(CacheEntryView::Summary(authors_summary(old(self).store()))),
            ),
            old(self).cache_is_exact() && summary_is_cached(old(self).cached())
                ==> out.from_cache,
            old(self).cache_is_exact() && counts_fit(
                CacheEntryView::Summary(authors_summary(old(self).store())),
            ) ==> summary_is_cached(final(self).cached()),
    {
        let ghost st = self.store();
        match self.cache.get(AUTHORS_SUMMARY_CACHE_KEY) {
            Some(bytes) => {
                match decode_entry(bytes.as_slice()) {
                    Some(CacheEntry::Summary(rows)) => {
                        proof {
                            let e = CacheEntryView::Summary(views(rows@));
                            assert(self.cached().contains_key(AUTHORS_SUMMARY_CACHE_KEY@));
                            assert(entry_read(
                                self.cached()[AUTHORS_SUMMARY_CACHE_KEY@],
                            ) == Some(e));
                            assert(holds(st, e));
                        }
                        return Fetched { value: rows, from_cache: true };
                    },
                    _ => {},
                }
            },
            None => {},
        }
        let rows = self.get_authors_summary();
        let entry = CacheEntry::Summary(rows);
        match encode_entry(&entry) {
            Some(bytes) => {
                let ghost before = self.cached();
                self.cache.set(AUTHORS_SUMMARY_CACHE_KEY, bytes.as_slice(), Some(SUMMARY_TTL));
                proof {
                    lemma_coherent_with_entry(before, self.cached(), st, entry@);
                    lemma_entry_round_trip(entry@);
                }
            },
            None => {},
        }
        match entry {
            CacheEntry::Summary(rows) => Fetched { value: rows, from_cache: false },
            _ => Fetched { value: Vec::new(), from_cache: false },
        }
    }

    /// The mean score of the reviews of `book`.
    pub fn get_book_average_score(&self, book: &ObjectId) -> (out: Average)
        requires
            self.store().wf(),
        ensures
            out == book_average(self.store().reviews, *book),
    {
        let (count, total) = reviews_of_book(self.db.reviews(), book);
        Average { total, count }
    }

    /// The mean score of the reviews of `book`, from the cache where it
    /// holds one, else computed and handed to the cache.
    pub fn get_book_average_score_cached(&mut self, book: &ObjectId) -> (out: Fetched<Average>)
        requires
            old(self).in_step(),
        ensures
            final(self).store() == old(self).store(),
            final(self).index() == old(self).index(),
            final(self).in_step(),
            final(self).cache_is_exact() == old(self).cache_is_exact(),
            out.value == book_average(old(self).store().reviews, *book),
            out.from_cache ==> average_is_cached(old(self).cached(), *book)
                && final(self).cached() == old(self).cached(),
            !out.from_cache ==> kept_or_took(
                old(self).cached(),
                final(self).cached(),
                book_average_key(hex_of(book.bytes@)),
                entry_bytes(
                    CacheEntryView::BookAverage {
                        book: *book,
                        average: book_average(old(self).store().reviews, *book),
                    },
                ),
            ),
            old(self).cache_is_exact() ==> average_is_cached(final(self).cached(), *book),
            old(self).cache_is_exact() && average_is_cached(old(self).cached(), *book)
                ==> out.from_cache,
    {
        let ghost st = self.store();
        let key = Self::key_book_avg(book.to_hex().as_str());
        match self.cache.get(key.as_str()) {
            Some(bytes) => {
                match decode_entry(bytes.as_slice()) {
                    Some(CacheEntry::BookAverage { book: of, average }) => {
                        if same_id(&of, book) {
                            proof {
                                assert(self.cached().contains_key(key@));
                                assert(entry_read(self.cached()[key@]) == Some(
                                    CacheEntryView::BookAverage { book: of, average },
                                ));
                            }
                            return Fetched { value: average, from_cache: true };
                        }
                    },
                    _ => {},
                }
            },
            None => {},
        }
        let average = self.get_book_average_score(book);
        let entry = CacheEntry::BookAverage { book: *book, average };
        match encode_entry(&entry) {
            Some(bytes) => {
                let ghost before = self.cached();
                self.cache.set(key.as_str(), bytes.as_slice(), Some(AVERAGE_TTL));
                proof {
                    lemma_coherent_with_entry(before, self.cached(), st, entry@);
                    lemma_entry_round_trip(entry@);
                }
            },
            None => {},
        }
        Fetched { value: average, from_cache: false }
    }

    /// The answer to a search, its page from the cache where it holds that
    /// page, else computed and handed to the cache. Queries with the same
    /// words share their pages. A query without a word is answered without
    /// the cache.
    pub fn search_books_cached(&mut self, query: &str, page: i64, per_page: i64) -> (out: Result<
        Fetched<PaginatedSearchResults>,
        AggregationError,
    >)
        requires
            old(self).in_step(),
        ensures
            final(self).store() == old(self).store(),
            final(self).index() == old(self).index(),
            final(self).in_step(),
            final(self).cache_is_exact() == old(self).cache_is_exact(),
            out is Ok <==> search_answer(old(self).store(), query@, page, per_page) is Ok,
            out matches Ok(found) ==> Ok::<_, AggregationError>(found.value@) == search_answer(
                old(self).store(),
                query@,
                page,
                per_page,
            ),
            out matches Err(e) ==> Err::<crate::models::PaginatedSearchResultsView, _>(e)
                == search_answer(old(self).store(), query@, page, per_page),
            out is Err ==> final(self).cached() == old(self).cached(),
            out matches Ok(found) ==> {
                let words = query_words(query@);
                &&& found.from_cache ==> page_is_cached(
                    old(self).cached(),
                    words,
                    page,
                    per_page,
                ) && final(self).cached() == old(self).cached()
                &&& !found.from_cache ==> kept_or_took(
                    old(self).cached(),
                    final(self).cached(),
                    search_key(words, page, per_page),
                    entry_bytes(
                        CacheEntryView::Search {
                            words: words,
                            page: page,
                            per_page: per_page,
                            found: search_page(
                                old(self).store(),
                                words,
                                page as int,
                                per_page as int,
                            ),
                        },
                    ),
                )
                &&& words.len() == 0 ==> !found.from_cache && final(self).cached()
                    == old(self).cached()
                &&& old(self).cache_is_exact() && words.len() > 0 && page_is_cached(
                    old(self).cached(),
                    words,
                    page,
                    per_page,
                ) ==> found.from_cache
                &&& old(self).cache_is_exact() && words.len() > 0 && counts_fit(
                    CacheEntryView::Search {
                        words: words,
                        page: page,
                        per_page: per_page,
                        found: search_page(old(self).store(), words, page as int, per_page as int),
                    },
                ) ==> page_is_cached(final(self).cached(), words, page, per_page)
            },
    {
        let ghost st = self.store();
        let words = words_of(&chars_of(query));
        proof {
            assert(views(words@).len() == words.len());
        }
        if words.len() == 0 {
            match self.search_books(query, page, per_page) {
                Ok(found) => {
                    return Ok(Fetched { value: found, from_cache: false });
                },
                Err(e) => {
                    return Err(e);
                },
            }
        }
        if page < 1 || per_page < 1 {
            return Err(AggregationError::InvalidPage);
        }
        let key = Self::key_search(&words, page, per_page);
        match self.cache.get(key.as_str()) {
            Some(bytes) => {
                match decode_entry(bytes.as_slice()) {
                    Some(CacheEntry::Search { words: of, page: p, per_page: pp, found }) => {
                        if same_words(&of, &words) && p == page && pp == per_page {
                            proof {
                                assert(self.cached().contains_key(key@));
                                assert(entry_read(self.cached()[key@]) == Some(
                                    CacheEntryView::Search {
                                        words: views(of@),
                                        page: p,
                                        per_page: pp,
                                        found: found@,
                                    },
                                ));
                            }
                            return Ok(
                                Fetched { value: assemble(found, query, page), from_cache: true },
                            );
                        }
                    },
                    _ => {},
                }
            },
            None => {},
        }
        let found = self.search_page(&words, page, per_page);
        let entry = CacheEntry::Search { words, page, per_page, found };
        match encode_entry(&entry) {
            Some(bytes) => {
                let ghost before = self.cached();
                self.cache.set(key.as_str(), bytes.as_slice(), Some(SEARCH_TTL));
                proof {
                    lemma_coherent_with_entry(before, self.cached(), st, entry@);
                    lemma_entry_round_trip(entry@);
                }
            },
            None => {},
        }
        match entry {
            CacheEntry::Search { words, page, per_page, found } => Ok(
                Fetched { value: assemble(found, query, page), from_cache: false },
            ),
            _ => Err(AggregationError::InvalidPage),
        }
    }
}

/// Whether the cache holds page `page` of the search for `words` under its
/// key.
pub open spec fn page_is_cached(
    entries: Map<Seq<char>, Seq<u8>>,
    words: Seq<Seq<char>>,
    page: i64,
    per_page: i64,
) -> bool {
    let key = search_key(words, page, per_page);
    &&& entries.contains_key(key)
    &&& entry_read(entries[key]) is Some
    &&& entry_read(entries[key])->0 is Search
    &&& entry_read(entries[key])->0->words == words
    &&& entry_read(entries[key])->0->page == page
    &&& entry_read(entries[key])->0->per_page == per_page
}

/// Whether the cache holds the mean score of `book` under its key.
pub open spec fn average_is_cached(entries: Map<Seq<char>, Seq<u8>>, book: ObjectId) -> bool {
    let key = book_average_key(hex_of(book.bytes@));
    &&& entries.contains_key(key)
    &&& entry_read(entries[key]) is Some
    &&& entry_read(entries[key])->0 is BookAverage
    &&& entry_read(entries[key])->0->book == book
}

/// Whether two lists of words are the same.
pub fn same_words(a: &Vec<Vec<char>>, b: &Vec<Vec<char>>) -> (out: bool)
    ensures
        out == (views(a@) == views(b@)),
{
    if a.len() != b.len() {
        proof {
            assert(views(a@).len() != views(b@).len());
        }
        return false;
    }
    let mut i: usize = 0;
    while i < a.len()
        invariant
            i <= a.len(),
            a.len() == b.len(),
            forall|k: int| 0 <= k < i ==> (#[trigger] a@[k])@ == b@[k]@,
        decreases a.len() - i,
    {
        if !crate::memory_cache::same_text(&a[i], &b[i]) {
            proof {
                assert(views(a@)[i as int] == a@[i as int]@);
                assert(views(b@)[i as int] == b@[i as int]@);
            }
            return false;
        }
        i += 1;
    }
    proof {
        assert(views(a@) =~= views(b@));
    }
    true
}

} // verus!
