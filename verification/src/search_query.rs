//! The search for books: which books hold every word of a query, and the
//! page of them that a request asks for.

use crate::measures::author_name;
use crate::models::{BookView, PaginatedSearchResultsView, SearchResult, SearchResultView};
use crate::orders::TextOrder;
use crate::ranking::top;
use crate::seqs::{sum_by, views};
use crate::store::StoreView;
use crate::text::{contains, has_substring, lower, split_tokens, to_lower, tokens};
use vstd::prelude::*;

verus! {

/// Why a report could not be made.
#[derive(Debug, Clone, Copy, PartialEq, Eq, Structural)]
pub enum AggregationError {
    /// The page number or the page size is below one.
    InvalidPage,
}

/// The words of a query: its tokens, in lower case.
pub open spec fn query_words(query: Seq<char>) -> Seq<Seq<char>> {
    Seq::new(tokens(query).len(), |k: int| lower(tokens(query)[k]))
}

/// Whether `word` occurs in the title or in the summary of `b`, whatever
/// the case of the letters there.
pub open spec fn word_in_book(b: BookView, word: Seq<char>) -> bool {
    contains(lower(b.title), word) || (b.summary is Some && contains(lower(b.summary->0), word))
}

/// Whether every word of `words` occurs in the title or in the summary of
/// `b`.
pub open spec fn book_matches(b: BookView, words: Seq<Seq<char>>) -> bool {
    forall|k: int| 0 <= k < words.len() ==> word_in_book(b, #[trigger] words[k])
}

/// The books by title, those that match `words` taking part.
pub open spec fn title_order(st: StoreView, words: Seq<Seq<char>>) -> Seq<TextOrder> {
    Seq::new(
        st.books.len(),
        |i: int| TextOrder { text: st.books[i].title, included: book_matches(st.books[i], words) },
    )
}

/// One for a book that matches `words`, else nothing.
pub open spec fn one_if_matches(words: Seq<Seq<char>>) -> spec_fn(BookView) -> int {
    |b: BookView| if book_matches(b, words) { 1int } else { 0 }
}

/// The number of books that match `words`.
pub open spec fn match_count(st: StoreView, words: Seq<Seq<char>>) -> int {
    sum_by(st.books, one_if_matches(words))
}

/// What the search shows of the book at position `i`.
pub open spec fn search_row(st: StoreView, i: int) -> SearchResultView {
    let b = st.books[i];
    SearchResultView {
        book_id: b.id,
        title: b.title,
        author_name: author_name(st.authors, b.author_id),
        summary: b.summary,
        publication_date: b.publication_date,
    }
}

/// What the search shows of the books at the positions `picked`.
pub open spec fn search_rows(st: StoreView, picked: Seq<usize>) -> Seq<SearchResultView> {
    Seq::new(picked.len(), |p: int| search_row(st, picked[p] as int))
}

/// The number of pages of `per_page` entries that `total` entries fill.
pub open spec fn pages_for(total: int, per_page: int) -> int {
    if total % per_page == 0 {
        total / per_page
    } else {
        total / per_page + 1
    }
}

/// Where page `page` starts in a list of `len` entries.
pub open spec fn page_start(len: int, page: int, per_page: int) -> int {
    let skip = (page - 1) * per_page;
    if skip < len {
        skip
    } else {
        len
    }
}

/// Where page `page` ends in a list of `len` entries.
pub open spec fn page_end(len: int, page: int, per_page: int) -> int {
    let stop = (page - 1) * per_page + per_page;
    if stop < len {
        stop
    } else {
        len
    }
}

/// The positions of the matching books, by title ascending; books of one
/// title in the order of the store.
pub open spec fn matching_books(st: StoreView, words: Seq<Seq<char>>) -> Seq<usize> {
    top(title_order(st, words), st.books.len() as int)
}

/// The entries of page `page` of the books that match `words`.
pub open spec fn page_rows(st: StoreView, words: Seq<Seq<char>>, page: int, per_page: int) -> Seq<
    SearchResultView,
> {
    let all = matching_books(st, words);
    search_rows(
        st,
        all.subrange(
            page_start(all.len() as int, page, per_page),
            page_end(all.len() as int, page, per_page),
        ),
    )
}

/// One page of a search with the counts of all matches: the part of an
/// answer that depends on the words, the page and the page size alone.
#[derive(Debug, Clone)]
pub struct SearchPage {
    pub results: Vec<SearchResult>,
    pub total_results: i64,
    pub total_pages: i64,
}

pub ghost struct SearchPageView {
    pub results: Seq<SearchResultView>,
    pub total_results: i64,
    pub total_pages: i64,
}

impl View for SearchPage {
    type V = SearchPageView;

    open spec fn view(&self) -> SearchPageView {
        SearchPageView {
            results: views(self.results@),
            total_results: self.total_results,
            total_pages: self.total_pages,
        }
    }
}

/// Page `page` of the books that match `words`, with the counts of all
/// matches.
pub open spec fn search_page(
    st: StoreView,
    words: Seq<Seq<char>>,
    page: int,
    per_page: int,
) -> SearchPageView {
    SearchPageView {
        results: page_rows(st, words, page, per_page),
        total_results: match_count(st, words) as i64,
        total_pages: pages_for(match_count(st, words), per_page) as i64,
    }
}

/// The answer that a page makes for a query.
pub open spec fn answer_of(
    pg: SearchPageView,
    query: Seq<char>,
    page: i64,
) -> PaginatedSearchResultsView {
    PaginatedSearchResultsView {
        results: pg.results,
        current_page: page,
        total_pages: pg.total_pages,
        total_results: pg.total_results,
        has_next: page < pg.total_pages,
        has_prev: page > 1,
        query: query,
    }
}

/// The answer to a search. A query without a word finds nothing, whatever
/// the page: its answer is empty, on no page of none. Otherwise the page
/// number and the page size must be at least one, and the answer holds the
/// page asked for, of the matching books by title, with the counts of all
/// matches.
pub open spec fn search_answer(st: StoreView, query: Seq<char>, page: i64, per_page: i64) -> Result<
    PaginatedSearchResultsView,
    AggregationError,
> {
    let words = query_words(query);
    if words.len() == 0 {
        Ok(
            PaginatedSearchResultsView {
                results: Seq::empty(),
                current_page: 0,
                total_pages: 0,
                total_results: 0,
                has_next: false,
                has_prev: false,
                query: query,
            },
        )
    } else if page < 1 || per_page < 1 {
        Err(AggregationError::InvalidPage)
    } else {
        Ok(answer_of(search_page(st, words, page as int, per_page as int), query, page))
    }
}

/// The words of `query`.
pub fn words_of(query: &Vec<char>) -> (out: Vec<Vec<char>>)
    ensures
        views(out@) == query_words(query@),
{
    let parts = split_tokens(query);
    let mut out: Vec<Vec<char>> = Vec::new();
    let mut k: usize = 0;
    while k < parts.len()
        invariant
            k <= parts.len(),
            views(parts@) == tokens(query@),
            out.len() == k,
            forall|j: int| 0 <= j < k ==> (#[trigger] out@[j])@ == lower(tokens(query@)[j]),
        decreases parts.len() - k,
    {
        proof {
            assert(views(parts@)[k as int] == parts@[k as int]@);
        }
        out.push(to_lower(&parts[k]));
        k += 1;
    }
    proof {
        assert(views(out@) =~= query_words(query@));
    }
    out
}

/// Whether every word occurs in the lower-case title or summary given.
pub fn holds_words(title: &Vec<char>, summary: &Option<Vec<char>>, words: &Vec<Vec<char>>) -> (out:
    bool)
    ensures
        out == forall|k: int|
            0 <= k < words.len() ==> contains(title@, (#[trigger] words@[k])@) || (summary is Some
                && contains(summary->0@, words@[k]@)),
{
    let mut k: usize = 0;
    while k < words.len()
        invariant
            k <= words.len(),
            forall|j: int|
                0 <= j < k ==> contains(title@, (#[trigger] words@[j])@) || (summary is Some
                    && contains(summary->0@, words@[j]@)),
        decreases words.len() - k,
    {
        let in_title = has_substring(title, &words[k]);
        let in_summary = match summary {
            Some(text) => has_substring(text, &words[k]),
            None => false,
        };
        if !in_title && !in_summary {
            return false;
        }
        k += 1;
    }
    true
}

} // verus!
