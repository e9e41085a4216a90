//! The reports: the summary of each author, the best rated and the best
//! selling books, and the search for books by words of a query.

use crate::cache::Cache;
use crate::dates::{parse_year, year_of_opt};
use crate::measures::{
    author_book_count, author_name, author_review_count, author_score_total, author_units,
    book_author, book_review_count, book_score_total, book_units, books_of_author, review_owners,
    reviews_of_author, reviews_of_book, sale_owners, units_of_author, units_of_book,
};
use crate::models::{
    clone_text, Author, AuthorSummary, AuthorSummaryView, Average, BookWithAuthor,
    BookWithAuthorView, PaginatedSearchResults, Review, ReviewView, ReviewWithScore,
    ReviewWithScoreView, SearchResult, TopRatedBook, TopRatedBookView, TopSellingBook,
    TopSellingBookView,
};
use crate::object_id::ObjectId;
use crate::orders::{RatingKey, RatingOrder, SalesKey, SalesOrder, TextKey, TextOrder};
use crate::ranking::{
    is_candidate, is_top, order_keys, precedes, select_top, top, RankKey, RankOrder,
};
use crate::search::SearchEngine;
use crate::search_query::{
    answer_of, book_matches, holds_words, one_if_matches, search_answer, search_page, search_row,
    search_rows, title_order, words_of, AggregationError, SearchPage,
};
use crate::seqs::{lemma_sum_all, lemma_sum_step, lemma_views_push, positions, sum_by, views};
use crate::store::{author_ids_distinct, find_author, has_author, same_id, Store, StoreView};
use crate::text::{chars_of, to_lower};
use vstd::prelude::*;

verus! {

/// The state that the requests share: the store, the cache of its reports
/// and the search index.
pub struct AppState<C: Cache, S: SearchEngine> {
    pub(crate) db: Store,
    pub(crate) cache: C,
    pub(crate) search: S,
}

impl<C: Cache, S: SearchEngine> AppState<C, S> {
    /// The store, as its model.
    pub open(crate) spec fn store(&self) -> StoreView {
        self.db@
    }

    /// What the cache may serve.
    pub open(crate) spec fn cached(&self) -> Map<Seq<char>, Seq<u8>> {
        self.cache.entries()
    }

    /// Whether the cache keeps all that it is given and serves all that it
    /// keeps.
    pub open(crate) spec fn cache_is_exact(&self) -> bool {
        self.cache.exact()
    }

    /// The cache, as it is.
    pub open(crate) spec fn cache_held(&self) -> C {
        self.cache
    }

    /// The search index, as it is.
    pub open(crate) spec fn index(&self) -> S {
        self.search
    }

    /// Whether the state is in order: the store meets its rules, and the
    /// cache is in step with the store.
    pub open spec fn in_step(&self) -> bool {
        self.store().wf() && crate::cached::coherent(self.cached(), self.store())
    }

    /// The state of a store, a cache and a search index. The cache is made
    /// to forget all that it holds, so that it is in step with the store.
    pub fn new(db: Store, cache: C, search: S) -> (out: AppState<C, S>)
        ensures
            out.store() == db@,
            out.index() == search,
            forall|k: Seq<char>| !out.cached().contains_key(k),
            db@.wf() ==> out.in_step(),
            out.cache_is_exact() == cache.exact(),
    {
        let mut cache = cache;
        cache.del_prefix("");
        proof {
            reveal_strlit("");
            assert forall|k: Seq<char>| crate::cache::has_prefix(k, ""@) by {
                assert(k.take(0) =~= ""@);
            }
        }
        AppState { db, cache, search }
    }

    /// The state of a store, of a cache that is in step with the store, and
    /// of a search index. The cache keeps what it holds.
    pub fn with_cache(db: Store, cache: C, search: S) -> (out: AppState<C, S>)
        requires
            crate::cached::coherent(cache.entries(), db@),
        ensures
            out.store() == db@,
            out.cache_held() == cache,
            out.index() == search,
            out.cached() == cache.entries(),
            db@.wf() ==> out.in_step(),
            out.cache_is_exact() == cache.exact(),
    {
        AppState { db, cache, search }
    }

    /// The store.
    pub fn db(&self) -> (out: &Store)
        ensures
            out@ == self.store(),
    {
        &self.db
    }

    /// The cache.
    pub fn cache(&self) -> (out: &C)
        ensures
            *out == self.cache_held(),
            out.entries() == self.cached(),
            out.exact() == self.cache_is_exact(),
    {
        &self.cache
    }

    /// The search index.
    pub fn search(&self) -> (out: &S)
        ensures
            *out == self.index(),
    {
        &self.search
    }
}

/// The summary of the author at position `i`: the number of the author's
/// books, the mean score of all reviews of those books, and the units sold
/// of those books.
pub open spec fn summary_row(st: StoreView, i: int) -> AuthorSummaryView {
    let a = st.authors[i];
    AuthorSummaryView {
        author_id: a.id,
        name: a.name,
        published_books: author_book_count(st.books, a.id) as i64,
        average_score: Average {
            total: author_score_total(st, a.id) as i64,
            count: author_review_count(st, a.id) as i64,
        },
        total_sales: author_units(st, a.id) as i64,
    }
}

/// The summaries of the authors at the positions `picked`.
pub open spec fn summary_rows(st: StoreView, picked: Seq<usize>) -> Seq<AuthorSummaryView> {
    Seq::new(picked.len(), |p: int| summary_row(st, picked[p] as int))
}

/// Whether `row` is the summary of an author of the store.
pub open spec fn is_summary_row(st: StoreView, row: AuthorSummaryView) -> bool {
    exists|i: int| 0 <= i < st.authors.len() && row == #[trigger] summary_row(st, i)
}

/// The authors by name.
pub open spec fn name_order(st: StoreView) -> Seq<TextOrder> {
    Seq::new(st.authors.len(), |i: int| TextOrder { text: st.authors[i].name, included: true })
}

/// The summary of every author, by name ascending; authors of one name in
/// the order of the store.
pub open spec fn authors_summary(st: StoreView) -> Seq<AuthorSummaryView> {
    summary_rows(st, top(name_order(st), st.authors.len() as int))
}

/// The books by rating: the sum and the number of the scores of each.
pub open spec fn rating_order(st: StoreView) -> Seq<RatingOrder> {
    Seq::new(
        st.books.len(),
        |i: int|
            RatingOrder {
                total: book_score_total(st.reviews, st.books[i].id),
                count: book_review_count(st.reviews, st.books[i].id),
            },
    )
}

/// What a report shows of a review.
pub open spec fn extract(r: ReviewView) -> ReviewWithScoreView {
    ReviewWithScoreView { text: r.text, score: r.score, up_votes: r.up_votes }
}

/// Whether the review at `at` is the first of the reviews of `book` that
/// has their highest score.
pub open spec fn is_first_highest(reviews: Seq<ReviewView>, book: ObjectId, at: int) -> bool {
    &&& 0 <= at < reviews.len()
    &&& reviews[at].book_id == book
    &&& forall|k: int|
        0 <= k < reviews.len() && (#[trigger] reviews[k]).book_id == book ==> reviews[k].score
            <= reviews[at].score
    &&& forall|k: int|
        0 <= k < at && (#[trigger] reviews[k]).book_id == book ==> reviews[k].score
            < reviews[at].score
}

/// Whether the review at `at` is the first of the reviews of `book` that
/// has their lowest score.
pub open spec fn is_first_lowest(reviews: Seq<ReviewView>, book: ObjectId, at: int) -> bool {
    &&& 0 <= at < reviews.len()
    &&& reviews[at].book_id == book
    &&& forall|k: int|
        0 <= k < reviews.len() && (#[trigger] reviews[k]).book_id == book ==> reviews[k].score
            >= reviews[at].score
    &&& forall|k: int|
        0 <= k < at && (#[trigger] reviews[k]).book_id == book ==> reviews[k].score
            > reviews[at].score
}

/// The first review of `book` with the highest score, if it has a review.
pub open spec fn highest_review(reviews: Seq<ReviewView>, book: ObjectId) -> Option<
    ReviewWithScoreView,
> {
    if exists|at: int| is_first_highest(reviews, book, at) {
        Some(extract(reviews[choose|at: int| is_first_highest(reviews, book, at)]))
    } else {
        None
    }
}

/// The first review of `book` with the lowest score, if it has a review.
pub open spec fn lowest_review(reviews: Seq<ReviewView>, book: ObjectId) -> Option<
    ReviewWithScoreView,
> {
    if exists|at: int| is_first_lowest(reviews, book, at) {
        Some(extract(reviews[choose|at: int| is_first_lowest(reviews, book, at)]))
    } else {
        None
    }
}

/// The rating of the book at position `i`: its mean score, the number of
/// its reviews, and its first reviews with the highest and the lowest
/// score.
pub open spec fn rated_row(st: StoreView, i: int) -> TopRatedBookView {
    let b = st.books[i];
    TopRatedBookView {
        book_id: b.id,
        title: b.title,
        author_name: author_name(st.authors, b.author_id),
        average_score: Average {
            total: book_score_total(st.reviews, b.id) as i64,
            count: book_review_count(st.reviews, b.id) as i64,
        },
        total_reviews: book_review_count(st.reviews, b.id) as i64,
        highest_rated_review: highest_review(st.reviews, b.id),
        lowest_rated_review: lowest_review(st.reviews, b.id),
    }
}

/// Whether `row` is the rating of a book of the store that has a review.
pub open spec fn is_rated_row(st: StoreView, row: TopRatedBookView) -> bool {
    exists|i: int|
        0 <= i < st.books.len() && row == #[trigger] rated_row(st, i) && book_review_count(
            st.reviews,
            st.books[i].id,
        ) > 0
}

/// The ratings of the books at the positions `picked`.
pub open spec fn rated_rows(st: StoreView, picked: Seq<usize>) -> Seq<TopRatedBookView> {
    Seq::new(picked.len(), |p: int| rated_row(st, picked[p] as int))
}

/// The ten best rated books that have a review: by mean score descending,
/// then by number of reviews descending, then in the order of the store.
pub open spec fn top_rated(st: StoreView) -> Seq<TopRatedBookView> {
    rated_rows(st, top(rating_order(st), 10))
}

/// Whether a mean is higher than another, or equal with more scores.
pub open spec fn rates_above(a: Average, b: Average) -> bool {
    a.total * b.count > b.total * a.count || (a.total * b.count == b.total * a.count && a.count
        > b.count)
}

/// The positions of the first reviews of `book` with the highest and with
/// the lowest score.
fn extreme_reviews(reviews: &Vec<Review>, book: &ObjectId) -> (out: (Option<usize>, Option<usize>))
    ensures
        out.0 matches Some(at) ==> is_first_highest(views(reviews@), *book, at as int),
        out.0 is None ==> !exists|at: int| is_first_highest(views(reviews@), *book, at),
        out.1 matches Some(at) ==> is_first_lowest(views(reviews@), *book, at as int),
        out.1 is None ==> !exists|at: int| is_first_lowest(views(reviews@), *book, at),
{
    let ghost all = views(reviews@);
    let mut high: Option<usize> = None;
    let mut low: Option<usize> = None;
    let mut i: usize = 0;
    while i < reviews.len()
        invariant
            i <= reviews.len(),
            all == views(reviews@),
            high is None <==> low is None,
            high is None ==> forall|k: int| 0 <= k < i ==> (#[trigger] all[k]).book_id != *book,
            high matches Some(at) ==> at < i
                && is_first_highest(all.take(i as int), *book, at as int),
            low matches Some(at) ==> at < i
                && is_first_lowest(all.take(i as int), *book, at as int),
        decreases reviews.len() - i,
    {
        proof {
            assert(all[i as int] == reviews@[i as int]@);
            assert forall|k: int| 0 <= k < i implies all.take(i as int)[k] == all.take(
                i as int + 1,
            )[k] by {}
        }
        if same_id(&reviews[i].book_id, book) {
            match high {
                Some(at) => {
                    proof {
                        assert(all.take(i as int)[at as int] == all[at as int]);
                    }
                    if reviews[i].score > reviews[at].score {
                        high = Some(i);
                    }
                },
                None => {
                    high = Some(i);
                },
            }
            match low {
                Some(at) => {
                    proof {
                        assert(all.take(i as int)[at as int] == all[at as int]);
                    }
                    if reviews[i].score < reviews[at].score {
                        low = Some(i);
                    }
                },
                None => {
                    low = Some(i);
                },
            }
        }
        proof {
            let next = all.take(i as int + 1);
            let before = all.take(i as int);
            assert(next[i as int] == all[i as int]);
            if high is Some {
                let at = high->0 as int;
                assert forall|k: int|
                    0 <= k < next.len() && (#[trigger] next[k]).book_id == *book
                        implies next[k].score
                    <= next[at].score by {
                    if k < i {
                        assert(before[k] == next[k]);
                    }
                }
                assert forall|k: int|
                    0 <= k < at && (#[trigger] next[k]).book_id == *book implies next[k].score
                    < next[at].score by {
                    assert(before[k] == next[k]);
                }
            }
            if low is Some {
                let at = low->0 as int;
                assert forall|k: int|
                    0 <= k < next.len() && (#[trigger] next[k]).book_id == *book
                        implies next[k].score
                    >= next[at].score by {
                    if k < i {
                        assert(before[k] == next[k]);
                    }
                }
                assert forall|k: int|
                    0 <= k < at && (#[trigger] next[k]).book_id == *book implies next[k].score
                    > next[at].score by {
                    assert(before[k] == next[k]);
                }
            }
        }
        i += 1;
    }
    proof {
        assert(all.take(reviews.len() as int) =~= all);
    }
    (high, low)
}

/// Only one review is the first with the highest score, and only one the
/// first with the lowest.
pub proof fn lemma_first_extreme_unique(reviews: Seq<ReviewView>, book: ObjectId, x: int, y: int)
    ensures
        is_first_highest(reviews, book, x) && is_first_highest(reviews, book, y) ==> x == y,
        is_first_lowest(reviews, book, x) && is_first_lowest(reviews, book, y) ==> x == y,
{
    if is_first_highest(reviews, book, x) && is_first_highest(reviews, book, y) {
        if x < y {
            assert(reviews[x].score < reviews[y].score);
            assert(reviews[y].score <= reviews[x].score);
        } else if y < x {
            assert(reviews[y].score < reviews[x].score);
            assert(reviews[x].score <= reviews[y].score);
        }
    }
    if is_first_lowest(reviews, book, x) && is_first_lowest(reviews, book, y) {
        if x < y {
            assert(reviews[x].score > reviews[y].score);
            assert(reviews[y].score >= reviews[x].score);
        } else if y < x {
            assert(reviews[y].score > reviews[x].score);
            assert(reviews[x].score >= reviews[y].score);
        }
    }
}

/// What a report shows of the review at `at`, if there is one.
fn extract_at(reviews: &Vec<Review>, at: Option<usize>) -> (out: Option<ReviewWithScore>)
    requires
        at matches Some(i) ==> i < reviews.len(),
    ensures
        at is None <==> out is None,
        at matches Some(i) ==> crate::models::extract_of(out) == Some(
            extract(views(reviews@)[i as int]),
        ),
{
    match at {
        Some(i) => {
            let r = &reviews[i];
            proof {
                assert(views(reviews@)[i as int] == reviews@[i as int]@);
            }
            Some(ReviewWithScore { text: r.text.clone(), score: r.score, up_votes: r.up_votes })
        },
        None => None,
    }
}

/// The name of the author `id`.
fn name_of_author(authors: &Vec<Author>, id: &ObjectId) -> (out: String)
    requires
        author_ids_distinct(views(authors@)),
        has_author(views(authors@), *id),
    ensures
        out@ == author_name(views(authors@), *id),
{
    match find_author(authors, id) {
        Some(at) => {
            proof {
                let all = views(authors@);
                let p = crate::measures::author_position(all, *id);
                assert(all[p].id == *id);
                assert(all[at as int] == authors@[at as int]@);
                if p < at {
                    assert(all[p].id != all[at as int].id);
                } else if at < p {
                    assert(all[at as int].id != all[p].id);
                }
            }
            authors[at].name.clone()
        },
        None => String::new(),
    }
}

/// The books by units sold.
pub open spec fn sales_order(st: StoreView) -> Seq<SalesOrder> {
    Seq::new(st.books.len(), |i: int| SalesOrder { units: book_units(st.sales, st.books[i].id) })
}

/// The publication year of the book at position `i`, if it has a date.
pub open spec fn book_year(st: StoreView, i: int) -> Option<i32> {
    year_of_opt(st.books[i].publication_date)
}

/// Whether the book at `j` sold more than the book at `i`, or as much and
/// stands before it in the store.
pub open spec fn sells_before(st: StoreView, j: int, i: int) -> bool {
    let sold_j = book_units(st.sales, st.books[j].id);
    let sold_i = book_units(st.sales, st.books[i].id);
    sold_j > sold_i || (sold_j == sold_i && j < i)
}

/// One for a position whose book has the publication year of the book at
/// `i` and comes before it by units sold, else nothing.
pub open spec fn ahead_in_year(st: StoreView, i: int) -> spec_fn(int) -> int {
    |j: int|
        if 0 <= j < st.books.len() && book_year(st, j) == book_year(st, i) && sells_before(
            st,
            j,
            i,
        ) {
            1int
        } else {
            0
        }
}

/// The number of books of the publication year of the book at `i` that come
/// before it by units sold.
pub open spec fn ahead_count(st: StoreView, i: int) -> int {
    sum_by(positions(st.books.len()), ahead_in_year(st, i))
}

/// Whether the book at `i` is among the five best selling books of its
/// publication year: it has a year, and fewer than five books of that year
/// come before it.
pub open spec fn in_top_5_of_year(st: StoreView, i: int) -> bool {
    book_year(st, i) is Some && ahead_count(st, i) < 5
}

/// What the book at position `i` sold: its units, the units of all books of
/// its author, and whether it is among the five best of its year.
pub open spec fn selling_row(st: StoreView, i: int) -> TopSellingBookView {
    let b = st.books[i];
    TopSellingBookView {
        book_id: b.id,
        title: b.title,
        author_name: author_name(st.authors, b.author_id),
        publication_date: b.publication_date,
        book_total_sales: book_units(st.sales, b.id) as i64,
        author_total_sales: author_units(st, b.author_id) as i64,
        was_top_5_in_publication_year: in_top_5_of_year(st, i),
    }
}

/// Whether `row` is what a book of the store sold.
pub open spec fn is_selling_row(st: StoreView, row: TopSellingBookView) -> bool {
    exists|i: int| 0 <= i < st.books.len() && row == #[trigger] selling_row(st, i)
}

/// The sales of the books at the positions `picked`.
pub open spec fn selling_rows(st: StoreView, picked: Seq<usize>) -> Seq<TopSellingBookView> {
    Seq::new(picked.len(), |p: int| selling_row(st, picked[p] as int))
}

/// The fifty best selling books that sold at all: by units descending, then
/// in the order of the store.
pub open spec fn top_selling(st: StoreView) -> Seq<TopSellingBookView> {
    selling_rows(st, top(sales_order(st), 50))
}

/// The number of books of the year of the book at `at` that come before it
/// by units sold.
fn count_ahead(
    units: &Vec<i64>,
    years: &Vec<Option<i32>>,
    at: usize,
    Ghost(st): Ghost<StoreView>,
) -> (out: usize)
    requires
        units.len() == st.books.len(),
        years.len() == st.books.len(),
        at < st.books.len(),
        forall|k: int|
            0 <= k < st.books.len() ==> (#[trigger] units@[k]) == book_units(
                st.sales,
                st.books[k].id,
            ),
        forall|k: int| 0 <= k < st.books.len() ==> (#[trigger] years@[k]) == book_year(st, k),
    ensures
        out == ahead_count(st, at as int),
{
    let ghost f = ahead_in_year(st, at as int);
    let ghost all = positions(st.books.len());
    let mut count: usize = 0;
    let mut j: usize = 0;
    while j < units.len()
        invariant
            j <= units.len(),
            units.len() == st.books.len(),
            years.len() == st.books.len(),
            at < st.books.len(),
            f == ahead_in_year(st, at as int),
            all == positions(st.books.len()),
            forall|k: int|
                0 <= k < st.books.len() ==> (#[trigger] units@[k]) == book_units(
                    st.sales,
                    st.books[k].id,
                ),
            forall|k: int| 0 <= k < st.books.len() ==> (#[trigger] years@[k]) == book_year(st, k),
            count == sum_by(all.take(j as int), f),
            count <= j,
        decreases units.len() - j,
    {
        proof {
            lemma_sum_step(all, j as int, f);
            assert(all[j as int] == j);
        }
        let same_year = match (&years[j], &years[at]) {
            (Some(a), Some(b)) => *a == *b,
            (None, None) => true,
            _ => false,
        };
        if same_year && (units[j] > units[at] || (units[j] == units[at] && j < at)) {
            count += 1;
        }
        j += 1;
    }
    proof {
        lemma_sum_all(all);
    }
    count
}

/// An author without a book has a summary of zeros: no book, a mean of no
/// score, and no unit sold.
pub proof fn lemma_author_without_books(st: StoreView, i: int)
    requires
        st.wf(),
        0 <= i < st.authors.len(),
        forall|k: int| 0 <= k < st.books.len() ==> (#[trigger] st.books[k]).author_id
            != st.authors[i].id,
    ensures
        summary_row(st, i).published_books == 0,
        summary_row(st, i).average_score == (Average { total: 0, count: 0 }),
        summary_row(st, i).total_sales == 0,
{
    let a = st.authors[i].id;
    assert forall|id: ObjectId| book_author(st.books, id) != Some(a) by {
        if crate::store::has_book(st.books, id) {
            let at = crate::measures::book_position(st.books, id);
            assert(st.books[at].author_id != a);
        }
    }
    crate::seqs::lemma_sum_bounds(st.books, crate::measures::one_for_book_of(a), 0, 0);
    crate::seqs::lemma_sum_bounds(st.sales, crate::measures::units_for_author(st.books, a), 0, 0);
    crate::seqs::lemma_sum_bounds(st.reviews, crate::measures::one_for_author(st.books, a), 0, 0);
    crate::seqs::lemma_sum_bounds(
        st.reviews,
        crate::measures::score_for_author(st.books, a),
        0,
        0,
    );
}

impl<C: Cache, S: SearchEngine> AppState<C, S> {
    /// The summary of every author, by name ascending.
    pub fn get_authors_summary(&self) -> (out: Vec<AuthorSummary>)
        requires
            self.store().wf(),
        ensures
            views(out@) == authors_summary(self.store()),
            forall|i: int|
                0 <= i < self.store().authors.len() ==> views(out@).contains(
                    #[trigger] summary_row(self.store(), i),
                ),
            forall|p: int| 0 <= p < out.len()
                ==> is_summary_row(self.store(), (#[trigger] out@[p])@),
            forall|p: int, q: int|
                0 <= p < q < out.len() ==> !crate::text::lex_less(
                    (#[trigger] out@[q]).name@,
                    (#[trigger] out@[p]).name@,
                ),
    {
        let ghost st = self.store();
        let authors = self.db.authors();
        let books = self.db.books();
        let reviews = self.db.reviews();
        let sales = self.db.sales();
        let owners_of_sales = sale_owners(books, sales);
        let owners_of_reviews = review_owners(books, reviews);
        let mut keys: Vec<TextKey> = Vec::new();
        let mut i: usize = 0;
        while i < authors.len()
            invariant
                i <= authors.len(),
                views(authors@) == st.authors,
                keys.len() == i,
                forall|k: int|
                    0 <= k < i ==> (#[trigger] keys@[k]).chars@ == authors@[k].name@
                        && keys@[k].included,
            decreases authors.len() - i,
        {
            keys.push(TextKey { chars: chars_of(authors[i].name.as_str()), included: true });
            i += 1;
        }
        proof {
            assert(order_keys::<TextOrder, TextKey>(keys@) =~= name_order(st));
        }
        let picked = select_top(&keys, authors.len());
        let ghost order = name_order(st);
        let mut out: Vec<AuthorSummary> = Vec::new();
        let mut p: usize = 0;
        while p < picked.len()
            invariant
                p <= picked.len(),
                st == self.store(),
                st.wf(),
                views(authors@) == st.authors,
                views(books@) == st.books,
                views(reviews@) == st.reviews,
                sales@ == st.sales,
                owners_of_sales.len() == sales.len(),
                owners_of_reviews.len() == reviews.len(),
                forall|k: int|
                    0 <= k < sales.len() ==> book_author(st.books, sales@[k].book_id) == Some(
                        #[trigger] owners_of_sales@[k],
                    ),
                forall|k: int|
                    0 <= k < reviews.len() ==> book_author(st.books, reviews@[k].book_id)
                        == Some(#[trigger] owners_of_reviews@[k]),
                forall|q: int| 0 <= q < picked.len() ==> (#[trigger] picked@[q]) < authors.len(),
                out.len() == p,
                views(out@) == summary_rows(st, picked@.take(p as int)),
                forall|q: int|
                    0 <= q < p ==> (#[trigger] out@[q])@ == summary_row(st, picked@[q] as int),
            decreases picked.len() - p,
        {
            let at = picked[p];
            let author = &authors[at];
            let published_books = books_of_author(books, &author.id);
            let (count, total) = reviews_of_author(
                reviews,
                &owners_of_reviews,
                &author.id,
                Ghost(st.books),
            );
            let total_sales = units_of_author(
                sales,
                &owners_of_sales,
                &author.id,
                Ghost(st.books),
            );
            let row = AuthorSummary {
                author_id: author.id,
                name: author.name.clone(),
                published_books,
                average_score: Average { total, count },
                total_sales,
            };
            proof {
                assert(st.authors[at as int] == authors@[at as int]@);
                assert(row@ == summary_row(st, at as int));
                lemma_views_push(out@, row);
                assert(summary_rows(st, picked@.take(p as int + 1)) =~= summary_rows(
                    st,
                    picked@.take(p as int),
                ).push(summary_row(st, at as int)));
            }
            out.push(row);
            p += 1;
        }
        proof {
            assert(picked@.take(picked.len() as int) =~= picked@);
            assert forall|i: int| 0 <= i < st.authors.len() implies views(out@).contains(
                #[trigger] summary_row(st, i),
            ) by {
                assert(is_candidate(order, i));
                crate::ranking::lemma_top_of_all(order, authors.len() as int, picked@, i);
                let p = choose|p: int| 0 <= p < picked@.len() && picked@[p] == i as usize;
                assert(out@[p]@ == summary_row(st, i));
                assert(views(out@)[p] == summary_row(st, i));
            }
            assert forall|p: int| 0 <= p < out.len() implies is_summary_row(
                st,
                (#[trigger] out@[p])@,
            ) by {
                assert(is_candidate(order, picked@[p] as int));
                assert(out@[p]@ == summary_row(st, picked@[p] as int));
            }
            assert forall|p: int, q: int| 0 <= p < q < out.len() implies !crate::text::lex_less(
                (#[trigger] out@[q]).name@,
                (#[trigger] out@[p]).name@,
            ) by {
                let i = picked@[p] as int;
                let j = picked@[q] as int;
                assert(is_candidate(order, picked@[p] as int));
                assert(is_candidate(order, picked@[q] as int));
                assert(precedes(order, picked@[p] as int, picked@[q] as int));
                assert(out@[p]@ == summary_row(st, i));
                assert(out@[q]@ == summary_row(st, j));
                if order[j].above(order[i]) {
                    TextOrder::lemma_irreflexive(order[i]);
                    TextOrder::lemma_transitive(order[i], order[j], order[i]);
                }
            }
        }
        out
    }

    /// The ten best rated books. A book without a review is left out; the
    /// mean of a book is the sum of its scores over their number, exact.
    pub fn get_top_rated_books(&self) -> (out: Vec<TopRatedBook>)
        requires
            self.store().wf(),
        ensures
            views(out@) == top_rated(self.store()),
            out.len() <= 10,
            forall|p: int| 0 <= p < out.len() ==> is_rated_row(self.store(), (#[trigger] out@[p])@),
            forall|i: int, p: int|
                0 <= i < self.store().books.len() && 0 <= p < out.len() && book_review_count(
                    self.store().reviews,
                    (#[trigger] self.store().books[i]).id,
                ) == 0 ==> (#[trigger] out@[p]).book_id != self.store().books[i].id,
            forall|p: int, q: int|
                0 <= p < q < out.len() ==> !rates_above(
                    (#[trigger] out@[q]).average_score,
                    (#[trigger] out@[p]).average_score,
                ),
    {
        let ghost st = self.store();
        let authors = self.db.authors();
        let books = self.db.books();
        let reviews = self.db.reviews();
        let mut keys: Vec<RatingKey> = Vec::new();
        let mut i: usize = 0;
        while i < books.len()
            invariant
                i <= books.len(),
                st == self.store(),
                st.wf(),
                views(books@) == st.books,
                views(reviews@) == st.reviews,
                keys.len() == i,
                forall|k: int|
                    0 <= k < i ==> (#[trigger] keys@[k]).order_key() == rating_order(st)[k],
            decreases books.len() - i,
        {
            proof {
                assert(st.books[i as int] == books@[i as int]@);
            }
            let (count, total) = reviews_of_book(reviews, &books[i].id);
            keys.push(RatingKey { total, count });
            i += 1;
        }
        let ghost order = rating_order(st);
        proof {
            assert(order_keys::<RatingOrder, RatingKey>(keys@) =~= order);
        }
        let picked = select_top(&keys, 10);
        let mut out: Vec<TopRatedBook> = Vec::new();
        let mut p: usize = 0;
        while p < picked.len()
            invariant
                p <= picked.len(),
                st == self.store(),
                st.wf(),
                order == rating_order(st),
                views(authors@) == st.authors,
                views(books@) == st.books,
                views(reviews@) == st.reviews,
                keys.len() == books.len(),
                forall|k: int|
                    0 <= k < keys.len() ==> (#[trigger] keys@[k]).order_key() == order[k],
                is_top(order, 10, picked@),
                out.len() == p,
                views(out@) == rated_rows(st, picked@.take(p as int)),
                forall|q: int|
                    0 <= q < p ==> (#[trigger] out@[q])@ == rated_row(st, picked@[q] as int),
            decreases picked.len() - p,
        {
            let at = picked[p];
            proof {
                assert(is_candidate(order, picked@[p as int] as int));
                assert(st.books[at as int] == books@[at as int]@);
                assert(keys@[at as int].order_key() == order[at as int]);
            }
            let book = &books[at];
            let (high, low) = extreme_reviews(reviews, &book.id);
            let highest_rated_review = extract_at(reviews, high);
            let lowest_rated_review = extract_at(reviews, low);
            let row = TopRatedBook {
                book_id: book.id,
                title: book.title.clone(),
                author_name: name_of_author(authors, &book.author_id),
                average_score: Average { total: keys[at].total, count: keys[at].count },
                total_reviews: keys[at].count,
                highest_rated_review,
                lowest_rated_review,
            };
            proof {
                if high is Some {
                    let h = high->0 as int;
                    let c = choose|x: int| is_first_highest(st.reviews, book.id, x);
                    lemma_first_extreme_unique(st.reviews, book.id, h, c);
                }
                if low is Some {
                    let l = low->0 as int;
                    let c = choose|x: int| is_first_lowest(st.reviews, book.id, x);
                    lemma_first_extreme_unique(st.reviews, book.id, l, c);
                }
                assert(row@ == rated_row(st, at as int));
                lemma_views_push(out@, row);
                assert(rated_rows(st, picked@.take(p as int + 1)) =~= rated_rows(
                    st,
                    picked@.take(p as int),
                ).push(rated_row(st, at as int)));
            }
            out.push(row);
            p += 1;
        }
        proof {
            assert(picked@.take(picked.len() as int) =~= picked@);
            assert forall|p: int| 0 <= p < out.len() implies is_rated_row(
                st,
                (#[trigger] out@[p])@,
            ) by {
                let i = picked@[p] as int;
                assert(is_candidate(order, picked@[p] as int));
                assert(order[i].eligible());
                assert(out@[p]@ == rated_row(st, i));
            }
            assert forall|i: int, p: int|
                0 <= i < st.books.len() && 0 <= p < out.len() && book_review_count(
                    st.reviews,
                    (#[trigger] st.books[i]).id,
                ) == 0 implies (#[trigger] out@[p]).book_id != st.books[i].id by {
                let j = picked@[p] as int;
                assert(is_candidate(order, picked@[p] as int));
                assert(order[j].eligible());
                assert(out@[p]@ == rated_row(st, j));
                if i < j {
                    assert(st.books[i].id != st.books[j].id);
                } else if j < i {
                    assert(st.books[j].id != st.books[i].id);
                }
            }
            assert forall|p: int, q: int| 0 <= p < q < out.len() implies !rates_above(
                (#[trigger] out@[q]).average_score,
                (#[trigger] out@[p]).average_score,
            ) by {
                let i = picked@[p] as int;
                let j = picked@[q] as int;
                assert(is_candidate(order, picked@[p] as int));
                assert(is_candidate(order, picked@[q] as int));
                assert(precedes(order, picked@[p] as int, picked@[q] as int));
                assert(out@[p]@ == rated_row(st, i));
                assert(out@[q]@ == rated_row(st, j));
                if order[j].above(order[i]) {
                    RatingOrder::lemma_irreflexive(order[i]);
                    RatingOrder::lemma_transitive(order[i], order[j], order[i]);
                }
            }
        }
        out
    }

    /// The fifty best selling books. A book that sold nothing is left out,
    /// and no book of the list sold less than one that follows it.
    pub fn get_top_selling_books(&self) -> (out: Vec<TopSellingBook>)
        requires
            self.store().wf(),
        ensures
            views(out@) == top_selling(self.store()),
            out.len() <= 50,
            forall|p: int| 0 <= p < out.len()
                ==> is_selling_row(self.store(), (#[trigger] out@[p])@),
            forall|p: int| 0 <= p < out.len() ==> (#[trigger] out@[p]).book_total_sales > 0,
            forall|i: int, p: int|
                0 <= i < self.store().books.len() && 0 <= p < out.len() && book_units(
                    self.store().sales,
                    (#[trigger] self.store().books[i]).id,
                ) == 0 ==> (#[trigger] out@[p]).book_id != self.store().books[i].id,
            forall|p: int, q: int|
                0 <= p < q < out.len() ==> (#[trigger] out@[p]).book_total_sales >= (
                #[trigger] out@[q]).book_total_sales,
            forall|p: int|
                0 <= p < out.len() && (#[trigger] out@[p]).publication_date is None
                    ==> !out@[p].was_top_5_in_publication_year,
    {
        let ghost st = self.store();
        let authors = self.db.authors();
        let books = self.db.books();
        let sales = self.db.sales();
        let owners = sale_owners(books, sales);
        let mut keys: Vec<SalesKey> = Vec::new();
        let mut units: Vec<i64> = Vec::new();
        let mut years: Vec<Option<i32>> = Vec::new();
        let mut i: usize = 0;
        while i < books.len()
            invariant
                i <= books.len(),
                st == self.store(),
                st.wf(),
                views(books@) == st.books,
                sales@ == st.sales,
                keys.len() == i,
                units.len() == i,
                years.len() == i,
                forall|k: int|
                    0 <= k < i ==> (#[trigger] keys@[k]).order_key() == sales_order(st)[k],
                forall|k: int|
                    0 <= k < i ==> (#[trigger] units@[k]) == book_units(
                        st.sales,
                        st.books[k].id,
                    ),
                forall|k: int| 0 <= k < i ==> (#[trigger] years@[k]) == book_year(st, k),
            decreases books.len() - i,
        {
            proof {
                assert(st.books[i as int] == books@[i as int]@);
            }
            let sold = units_of_book(sales, &books[i].id);
            let year = match &books[i].publication_date {
                Some(date) => parse_year(&chars_of(date.as_str())),
                None => None,
            };
            keys.push(SalesKey { units: sold });
            units.push(sold);
            years.push(year);
            i += 1;
        }
        let ghost order = sales_order(st);
        proof {
            assert(order_keys::<SalesOrder, SalesKey>(keys@) =~= order);
        }
        let picked = select_top(&keys, 50);
        let mut out: Vec<TopSellingBook> = Vec::new();
        let mut p: usize = 0;
        while p < picked.len()
            invariant
                p <= picked.len(),
                st == self.store(),
                st.wf(),
                order == sales_order(st),
                views(authors@) == st.authors,
                views(books@) == st.books,
                sales@ == st.sales,
                owners.len() == sales.len(),
                forall|k: int|
                    0 <= k < sales.len() ==> book_author(st.books, sales@[k].book_id) == Some(
                        #[trigger] owners@[k],
                    ),
                units.len() == books.len(),
                years.len() == books.len(),
                forall|k: int|
                    0 <= k < books.len() ==> (#[trigger] units@[k]) == book_units(
                        st.sales,
                        st.books[k].id,
                    ),
                forall|k: int| 0 <= k < books.len() ==> (#[trigger] years@[k]) == book_year(st, k),
                is_top(order, 50, picked@),
                out.len() == p,
                views(out@) == selling_rows(st, picked@.take(p as int)),
                forall|q: int|
                    0 <= q < p ==> (#[trigger] out@[q])@ == selling_row(st, picked@[q] as int),
            decreases picked.len() - p,
        {
            let at = picked[p];
            proof {
                assert(is_candidate(order, picked@[p as int] as int));
                assert(st.books[at as int] == books@[at as int]@);
            }
            let book = &books[at];
            let ahead = count_ahead(&units, &years, at, Ghost(st));
            let row = TopSellingBook {
                book_id: book.id,
                title: book.title.clone(),
                author_name: name_of_author(authors, &book.author_id),
                publication_date: clone_text(&book.publication_date),
                book_total_sales: units[at],
                author_total_sales: units_of_author(
                    sales,
                    &owners,
                    &book.author_id,
                    Ghost(st.books),
                ),
                was_top_5_in_publication_year: years[at].is_some() && ahead < 5,
            };
            proof {
                assert(row@ == selling_row(st, at as int));
                lemma_views_push(out@, row);
                assert(selling_rows(st, picked@.take(p as int + 1)) =~= selling_rows(
                    st,
                    picked@.take(p as int),
                ).push(selling_row(st, at as int)));
            }
            out.push(row);
            p += 1;
        }
        proof {
            assert(picked@.take(picked.len() as int) =~= picked@);
            assert forall|p: int| 0 <= p < out.len() implies is_selling_row(
                st,
                (#[trigger] out@[p])@,
            ) by {
                assert(is_candidate(order, picked@[p] as int));
                assert(out@[p]@ == selling_row(st, picked@[p] as int));
            }
            assert forall|p: int| 0 <= p < out.len() implies (#[trigger] out@[p]).book_total_sales
                > 0 by {
                assert(is_candidate(order, picked@[p] as int));
                assert(out@[p]@ == selling_row(st, picked@[p] as int));
            }
            assert forall|i: int, p: int|
                0 <= i < st.books.len() && 0 <= p < out.len() && book_units(
                    st.sales,
                    (#[trigger] st.books[i]).id,
                ) == 0 implies (#[trigger] out@[p]).book_id != st.books[i].id by {
                let j = picked@[p] as int;
                assert(is_candidate(order, picked@[p] as int));
                assert(order[j].eligible());
                assert(out@[p]@ == selling_row(st, j));
                if i < j {
                    assert(st.books[i].id != st.books[j].id);
                } else if j < i {
                    assert(st.books[j].id != st.books[i].id);
                }
            }
            assert forall|p: int, q: int| 0 <= p < q < out.len() implies (
            #[trigger] out@[p]).book_total_sales >= (#[trigger] out@[q]).book_total_sales by {
                assert(is_candidate(order, picked@[p] as int));
                assert(is_candidate(order, picked@[q] as int));
                assert(precedes(order, picked@[p] as int, picked@[q] as int));
                assert(out@[p]@ == selling_row(st, picked@[p] as int));
                assert(out@[q]@ == selling_row(st, picked@[q] as int));
            }
            assert forall|p: int|
                0 <= p < out.len() && (#[trigger] out@[p]).publication_date is None
                    implies !out@[p].was_top_5_in_publication_year by {
                assert(out@[p]@ == selling_row(st, picked@[p] as int));
            }
        }
        out
    }

    /// Page `page` of the books that hold every word of `words`, by title,
    /// with the counts of all such books.
    pub(crate) fn search_page(&self, words: &Vec<Vec<char>>, page: i64, per_page: i64) -> (out:
        SearchPage)
        requires
            self.store().wf(),
            page >= 1,
            per_page >= 1,
        ensures
            out@ == search_page(self.store(), views(words@), page as int, per_page as int),
    {
        let ghost st = self.store();
        let ghost wanted = views(words@);
        let ghost one = one_if_matches(wanted);
        let authors = self.db.authors();
        let books = self.db.books();
        let mut keys: Vec<TextKey> = Vec::new();
        let mut total: i64 = 0;
        let mut i: usize = 0;
        while i < books.len()
            invariant
                i <= books.len(),
                st == self.store(),
                st.wf(),
                wanted == views(words@),
                one == one_if_matches(wanted),
                views(books@) == st.books,
                keys.len() == i,
                forall|k: int|
                    0 <= k < i ==> (#[trigger] keys@[k]).order_key() == title_order(st, wanted)[k],
                total == sum_by(st.books.take(i as int), one),
                0 <= total <= i,
            decreases books.len() - i,
        {
            proof {
                assert(st.books[i as int] == books@[i as int]@);
                lemma_sum_step(st.books, i as int, one);
            }
            let title = chars_of(books[i].title.as_str());
            let folded = to_lower(&title);
            let summary = match &books[i].summary {
                Some(text) => Some(to_lower(&chars_of(text.as_str()))),
                None => None,
            };
            let included = holds_words(&folded, &summary, words);
            proof {
                let b = st.books[i as int];
                assert(included == book_matches(b, wanted)) by {
                    assert forall|k: int| 0 <= k < wanted.len() implies wanted[k]
                        == words@[k]@ by {}
                    if included {
                        assert forall|k: int| 0 <= k < wanted.len()
                            implies crate::search_query::word_in_book(
                            b,
                            #[trigger] wanted[k],
                        ) by {
                            assert(contains_either(folded@, summary, words@[k]@));
                        }
                    } else {
                        if book_matches(b, wanted) {
                            assert forall|k: int| 0 <= k < words.len() implies contains_either(
                                folded@,
                                summary,
                                (#[trigger] words@[k])@,
                            ) by {
                                assert(crate::search_query::word_in_book(b, wanted[k]));
                            }
                        }
                    }
                }
            }
            if included {
                total = total + 1;
            }
            keys.push(TextKey { chars: title, included });
            i += 1;
        }
        let ghost order = title_order(st, wanted);
        proof {
            lemma_sum_all(st.books);
            assert(order_keys::<TextOrder, TextKey>(keys@) =~= order);
        }
        let picked = select_top(&keys, books.len());
        let len = picked.len();
        proof {
            assert(0 <= (page - 1) * per_page <= 0x7fff_ffff_ffff_ffff * 0x7fff_ffff_ffff_ffff)
                by (nonlinear_arith)
                requires
                    0 <= page - 1 <= 0x7fff_ffff_ffff_ffff,
                    0 <= per_page <= 0x7fff_ffff_ffff_ffff,
            ;
        }
        let skip: i128 = (page as i128 - 1) * (per_page as i128);
        let from: usize = if skip < len as i128 {
            skip as usize
        } else {
            len
        };
        let stop: i128 = skip + per_page as i128;
        let to: usize = if stop < len as i128 {
            stop as usize
        } else {
            len
        };
        let ghost window = picked@.subrange(from as int, to as int);
        let mut results: Vec<SearchResult> = Vec::new();
        let mut p: usize = from;
        while p < to
            invariant
                from <= p <= to,
                to <= picked.len(),
                st == self.store(),
                st.wf(),
                views(authors@) == st.authors,
                views(books@) == st.books,
                order.len() == books.len(),
                is_top(order, books.len() as int, picked@),
                window == picked@.subrange(from as int, to as int),
                views(results@) == search_rows(st, window.take(p - from)),
            decreases to - p,
        {
            let at = picked[p];
            proof {
                assert(is_candidate(order, picked@[p as int] as int));
                assert(st.books[at as int] == books@[at as int]@);
                assert(window[p - from] == at);
            }
            let book = &books[at];
            let row = SearchResult {
                book_id: book.id,
                title: book.title.clone(),
                author_name: name_of_author(authors, &book.author_id),
                summary: clone_text(&book.summary),
                publication_date: clone_text(&book.publication_date),
            };
            proof {
                assert(row@ == search_row(st, at as int));
                lemma_views_push(results@, row);
                assert(search_rows(st, window.take(p - from + 1)) =~= search_rows(
                    st,
                    window.take(p - from),
                ).push(search_row(st, at as int)));
            }
            results.push(row);
            p += 1;
        }
        proof {
            assert(window.take(to - from) =~= window);
        }
        let total_pages = if total % per_page == 0 {
            total / per_page
        } else {
            total / per_page + 1
        };
        SearchPage { results, total_results: total, total_pages }
    }

    /// The books that hold every word of `query` in their title or
    /// summary, whatever the case of the letters: page `page` of them by
    /// title, with the counts of all of them.
    pub fn search_books(&self, query: &str, page: i64, per_page: i64) -> (out: Result<
        PaginatedSearchResults,
        AggregationError,
    >)
        requires
            self.store().wf(),
        ensures
            out is Ok <==> search_answer(self.store(), query@, page, per_page) is Ok,
            out matches Ok(found) ==> Ok::<_, AggregationError>(found@) == search_answer(
                self.store(),
                query@,
                page,
                per_page,
            ),
            out matches Err(e) ==> Err::<crate::models::PaginatedSearchResultsView, _>(e)
                == search_answer(self.store(), query@, page, per_page),
    {
        let words = words_of(&chars_of(query));
        if words.len() == 0 {
            let results: Vec<SearchResult> = Vec::new();
            proof {
                assert(views(results@) =~= Seq::empty());
            }
            return Ok(
                PaginatedSearchResults {
                    results,
                    current_page: 0,
                    total_pages: 0,
                    total_results: 0,
                    has_next: false,
                    has_prev: false,
                    query: query.to_owned(),
                },
            );
        }
        if page < 1 || per_page < 1 {
            return Err(AggregationError::InvalidPage);
        }
        let found = self.search_page(&words, page, per_page);
        Ok(assemble(found, query, page))
    }
}

/// The book at position `i` with the name of its author.
pub open spec fn listed_book(st: StoreView, i: int) -> BookWithAuthorView {
    let b = st.books[i];
    BookWithAuthorView {
        id: crate::object_id::hex_of(b.id.bytes@),
        title: b.title,
        author_name: author_name(st.authors, b.author_id),
    }
}

/// The books at the positions `picked`, each with the name of its author.
pub open spec fn listed_books(st: StoreView, picked: Seq<usize>) -> Seq<BookWithAuthorView> {
    Seq::new(picked.len(), |p: int| listed_book(st, picked[p] as int))
}

/// All books by title.
pub open spec fn all_by_title(st: StoreView) -> Seq<TextOrder> {
    Seq::new(st.books.len(), |i: int| TextOrder { text: st.books[i].title, included: true })
}

/// Every book with the name of its author, by title ascending; books of
/// one title in the order of the store.
pub open spec fn books_with_authors(st: StoreView) -> Seq<BookWithAuthorView> {
    listed_books(st, top(all_by_title(st), st.books.len() as int))
}

impl<C: Cache, S: SearchEngine> AppState<C, S> {
    /// The authors, in the order of the store.
    pub fn get_all_authors(&self) -> (out: &Vec<Author>)
        ensures
            views(out@) == self.store().authors,
    {
        self.db.authors()
    }

    /// Every book with the name of its author, by title ascending.
    pub fn get_all_books_with_authors(&self) -> (out: Vec<BookWithAuthor>)
        requires
            self.store().wf(),
        ensures
            views(out@) == books_with_authors(self.store()),
    {
        let ghost st = self.store();
        let authors = self.db.authors();
        let books = self.db.books();
        let mut keys: Vec<TextKey> = Vec::new();
        let mut i: usize = 0;
        while i < books.len()
            invariant
                i <= books.len(),
                views(books@) == st.books,
                keys.len() == i,
                forall|k: int|
                    0 <= k < i ==> (#[trigger] keys@[k]).order_key() == all_by_title(st)[k],
            decreases books.len() - i,
        {
            proof {
                assert(st.books[i as int] == books@[i as int]@);
            }
            keys.push(TextKey { chars: chars_of(books[i].title.as_str()), included: true });
            i += 1;
        }
        let ghost order = all_by_title(st);
        proof {
            assert(order_keys::<TextOrder, TextKey>(keys@) =~= order);
        }
        let picked = select_top(&keys, books.len());
        let mut out: Vec<BookWithAuthor> = Vec::new();
        let mut p: usize = 0;
        while p < picked.len()
            invariant
                p <= picked.len(),
                st == self.store(),
                st.wf(),
                views(authors@) == st.authors,
                views(books@) == st.books,
                order.len() == books.len(),
                is_top(order, books.len() as int, picked@),
                views(out@) == listed_books(st, picked@.take(p as int)),
            decreases picked.len() - p,
        {
            let at = picked[p];
            proof {
                assert(is_candidate(order, picked@[p as int] as int));
                assert(st.books[at as int] == books@[at as int]@);
            }
            let book = &books[at];
            let row = BookWithAuthor {
                id: book.id.to_hex(),
                title: book.title.clone(),
                author_name: name_of_author(authors, &book.author_id),
            };
            proof {
                assert(row@ == listed_book(st, at as int));
                lemma_views_push(out@, row);
                assert(listed_books(st, picked@.take(p as int + 1)) =~= listed_books(
                    st,
                    picked@.take(p as int),
                ).push(listed_book(st, at as int)));
            }
            out.push(row);
            p += 1;
        }
        proof {
            assert(picked@.take(picked.len() as int) =~= picked@);
        }
        out
    }
}

/// Whether `word` occurs in `title` or in `summary`.
pub open spec fn contains_either(
    title: Seq<char>,
    summary: Option<Vec<char>>,
    word: Seq<char>,
) -> bool {
    crate::text::contains(title, word) || (summary is Some && crate::text::contains(
        summary->0@,
        word,
    ))
}

/// The answer that a page makes for a query.
pub fn assemble(found: SearchPage, query: &str, page: i64) -> (out: PaginatedSearchResults)
    ensures
        out@ == answer_of(found@, query@, page),
{
    let has_next = page < found.total_pages;
    PaginatedSearchResults {
        results: found.results,
        current_page: page,
        total_pages: found.total_pages,
        total_results: found.total_results,
        has_next,
        has_prev: page > 1,
        query: query.to_owned(),
    }
}

} // verus!
