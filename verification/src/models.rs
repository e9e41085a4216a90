//! The documents of the catalog and the views derived from them, each with
//! its mathematical model.

use crate::object_id::ObjectId;
use vstd::prelude::*;

verus! {

/// The characters of an optional text.
pub open spec fn text_of(s: Option<String>) -> Option<Seq<char>> {
    match s {
        Some(t) => Some(t@),
        None => None,
    }
}

/// A copy of an optional text.
pub fn clone_text(s: &Option<String>) -> (out: Option<String>)
    ensures
        text_of(out) == text_of(*s),
{
    match s {
        Some(t) => Some(t.clone()),
        None => None,
    }
}

/// An author.
#[derive(Debug, Clone)]
pub struct Author {
    pub id: ObjectId,
    pub name: String,
    pub date_of_birth: Option<String>,
    pub country: Option<String>,
    pub description: Option<String>,
    pub image_path: Option<String>,
}

pub ghost struct AuthorView {
    pub id: ObjectId,
    pub name: Seq<char>,
    pub date_of_birth: Option<Seq<char>>,
    pub country: Option<Seq<char>>,
    pub description: Option<Seq<char>>,
    pub image_path: Option<Seq<char>>,
}

impl View for Author {
    type V = AuthorView;

    open spec fn view(&self) -> AuthorView {
        AuthorView {
            id: self.id,
            name: self.name@,
            date_of_birth: text_of(self.date_of_birth),
            country: text_of(self.country),
            description: text_of(self.description),
            image_path: text_of(self.image_path),
        }
    }
}

/// A book. `total_sales` repeats the sum of the units of the book's sales;
/// it is written whenever those sales change.
#[derive(Debug, Clone)]
pub struct Book {
    pub id: ObjectId,
    pub author_id: ObjectId,
    pub title: String,
    pub summary: Option<String>,
    pub publication_date: Option<String>,
    pub total_sales: Option<i64>,
}

pub ghost struct BookView {
    pub id: ObjectId,
    pub author_id: ObjectId,
    pub title: Seq<char>,
    pub summary: Option<Seq<char>>,
    pub publication_date: Option<Seq<char>>,
    pub total_sales: Option<i64>,
}

impl View for Book {
    type V = BookView;

    open spec fn view(&self) -> BookView {
        BookView {
            id: self.id,
            author_id: self.author_id,
            title: self.title@,
            summary: text_of(self.summary),
            publication_date: text_of(self.publication_date),
            total_sales: self.total_sales,
        }
    }
}

/// A review of a book: a score from 1 to 5 and a count of up-votes.
#[derive(Debug, Clone)]
pub struct Review {
    pub id: ObjectId,
    pub book_id: ObjectId,
    pub text: String,
    pub score: i32,
    pub up_votes: i64,
}

pub ghost struct ReviewView {
    pub id: ObjectId,
    pub book_id: ObjectId,
    pub text: Seq<char>,
    pub score: i32,
    pub up_votes: i64,
}

impl View for Review {
    type V = ReviewView;

    open spec fn view(&self) -> ReviewView {
        ReviewView {
            id: self.id,
            book_id: self.book_id,
            text: self.text@,
            score: self.score,
            up_votes: self.up_votes,
        }
    }
}

/// The units of a book sold in one year.
#[derive(Debug, Clone, Copy)]
pub struct Sale {
    pub id: ObjectId,
    pub book_id: ObjectId,
    pub year: i32,
    pub units: i64,
}

impl View for Sale {
    type V = Sale;

    open spec fn view(&self) -> Sale {
        *self
    }
}

/// The mean of `count` scores whose sum is `total`, kept exact. With no
/// score the mean is zero.
#[derive(Debug, Clone, Copy, PartialEq, Eq, Structural)]
pub struct Average {
    pub total: i64,
    pub count: i64,
}

/// What the summary shows of an author: the number of books, the mean
/// score of the reviews of those books and the units that they sold.
#[derive(Debug, Clone)]
pub struct AuthorSummary {
    pub author_id: ObjectId,
    pub name: String,
    pub published_books: i64,
    pub average_score: Average,
    pub total_sales: i64,
}

pub ghost struct AuthorSummaryView {
    pub author_id: ObjectId,
    pub name: Seq<char>,
    pub published_books: i64,
    pub average_score: Average,
    pub total_sales: i64,
}

impl View for AuthorSummary {
    type V = AuthorSummaryView;

    open spec fn view(&self) -> AuthorSummaryView {
        AuthorSummaryView {
            author_id: self.author_id,
            name: self.name@,
            published_books: self.published_books,
            average_score: self.average_score,
            total_sales: self.total_sales,
        }
    }
}

/// What a report shows of a review.
#[derive(Debug, Clone)]
pub struct ReviewWithScore {
    pub text: String,
    pub score: i32,
    pub up_votes: i64,
}

pub ghost struct ReviewWithScoreView {
    pub text: Seq<char>,
    pub score: i32,
    pub up_votes: i64,
}

impl View for ReviewWithScore {
    type V = ReviewWithScoreView;

    open spec fn view(&self) -> ReviewWithScoreView {
        ReviewWithScoreView { text: self.text@, score: self.score, up_votes: self.up_votes }
    }
}

/// The model of an optional review extract.
pub open spec fn extract_of(r: Option<ReviewWithScore>) -> Option<ReviewWithScoreView> {
    match r {
        Some(x) => Some(x@),
        None => None,
    }
}

/// A book among the best rated, with its mean score and the first of its
/// reviews with the highest and with the lowest score.
#[derive(Debug, Clone)]
pub struct TopRatedBook {
    pub book_id: ObjectId,
    pub title: String,
    pub author_name: String,
    pub average_score: Average,
    pub total_reviews: i64,
    pub highest_rated_review: Option<ReviewWithScore>,
    pub lowest_rated_review: Option<ReviewWithScore>,
}

pub ghost struct TopRatedBookView {
    pub book_id: ObjectId,
    pub title: Seq<char>,
    pub author_name: Seq<char>,
    pub average_score: Average,
    pub total_reviews: i64,
    pub highest_rated_review: Option<ReviewWithScoreView>,
    pub lowest_rated_review: Option<ReviewWithScoreView>,
}

impl View for TopRatedBook {
    type V = TopRatedBookView;

    open spec fn view(&self) -> TopRatedBookView {
        TopRatedBookView {
            book_id: self.book_id,
            title: self.title@,
            author_name: self.author_name@,
            average_score: self.average_score,
            total_reviews: self.total_reviews,
            highest_rated_review: extract_of(self.highest_rated_review),
            lowest_rated_review: extract_of(self.lowest_rated_review),
        }
    }
}

/// A book among the best selling, with the units that it and that all
/// books of its author sold.
#[derive(Debug, Clone)]
pub struct TopSellingBook {
    pub book_id: ObjectId,
    pub title: String,
    pub author_name: String,
    pub publication_date: Option<String>,
    pub book_total_sales: i64,
    pub author_total_sales: i64,
    pub was_top_5_in_publication_year: bool,
}

pub ghost struct TopSellingBookView {
    pub book_id: ObjectId,
    pub title: Seq<char>,
    pub author_name: Seq<char>,
    pub publication_date: Option<Seq<char>>,
    pub book_total_sales: i64,
    pub author_total_sales: i64,
    pub was_top_5_in_publication_year: bool,
}

impl View for TopSellingBook {
    type V = TopSellingBookView;

    open spec fn view(&self) -> TopSellingBookView {
        TopSellingBookView {
            book_id: self.book_id,
            title: self.title@,
            author_name: self.author_name@,
            publication_date: text_of(self.publication_date),
            book_total_sales: self.book_total_sales,
            author_total_sales: self.author_total_sales,
            was_top_5_in_publication_year: self.was_top_5_in_publication_year,
        }
    }
}

/// A book that a search found.
#[derive(Debug, Clone)]
pub struct SearchResult {
    pub book_id: ObjectId,
    pub title: String,
    pub author_name: String,
    pub summary: Option<String>,
    pub publication_date: Option<String>,
}

pub ghost struct SearchResultView {
    pub book_id: ObjectId,
    pub title: Seq<char>,
    pub author_name: Seq<char>,
    pub summary: Option<Seq<char>>,
    pub publication_date: Option<Seq<char>>,
}

impl View for SearchResult {
    type V = SearchResultView;

    open spec fn view(&self) -> SearchResultView {
        SearchResultView {
            book_id: self.book_id,
            title: self.title@,
            author_name: self.author_name@,
            summary: text_of(self.summary),
            publication_date: text_of(self.publication_date),
        }
    }
}

/// The answer to a search: one page of the books found, and where that
/// page stands among all of them.
#[derive(Debug, Clone)]
pub struct PaginatedSearchResults {
    pub results: Vec<SearchResult>,
    pub current_page: i64,
    pub total_pages: i64,
    pub total_results: i64,
    pub has_next: bool,
    pub has_prev: bool,
    pub query: String,
}

pub ghost struct PaginatedSearchResultsView {
    pub results: Seq<SearchResultView>,
    pub current_page: i64,
    pub total_pages: i64,
    pub total_results: i64,
    pub has_next: bool,
    pub has_prev: bool,
    pub query: Seq<char>,
}

impl View for PaginatedSearchResults {
    type V = PaginatedSearchResultsView;

    open spec fn view(&self) -> PaginatedSearchResultsView {
        PaginatedSearchResultsView {
            results: crate::seqs::views(self.results@),
            current_page: self.current_page,
            total_pages: self.total_pages,
            total_results: self.total_results,
            has_next: self.has_next,
            has_prev: self.has_prev,
            query: self.query@,
        }
    }
}

/// A book as the search index holds it.
#[derive(Debug, Clone)]
pub struct BookSearchDoc {
    pub book_id: String,
    pub title: String,
    pub summary: Option<String>,
    pub author_name: String,
    pub publication_date: Option<String>,
}

/// A review as the search index holds it.
#[derive(Debug, Clone)]
pub struct ReviewSearchDoc {
    pub review_id: String,
    pub book_id: String,
    pub text: String,
    pub score: i32,
}

pub ghost struct BookSearchDocView {
    pub book_id: Seq<char>,
    pub title: Seq<char>,
    pub summary: Option<Seq<char>>,
    pub author_name: Seq<char>,
    pub publication_date: Option<Seq<char>>,
}

impl View for BookSearchDoc {
    type V = BookSearchDocView;

    open spec fn view(&self) -> BookSearchDocView {
        BookSearchDocView {
            book_id: self.book_id@,
            title: self.title@,
            summary: text_of(self.summary),
            author_name: self.author_name@,
            publication_date: text_of(self.publication_date),
        }
    }
}

pub ghost struct ReviewSearchDocView {
    pub review_id: Seq<char>,
    pub book_id: Seq<char>,
    pub text: Seq<char>,
    pub score: i32,
}

impl View for ReviewSearchDoc {
    type V = ReviewSearchDocView;

    open spec fn view(&self) -> ReviewSearchDocView {
        ReviewSearchDocView {
            review_id: self.review_id@,
            book_id: self.book_id@,
            text: self.text@,
            score: self.score,
        }
    }
}

/// A book with the name of its author, for selection lists.
#[derive(Debug, Clone)]
pub struct BookWithAuthor {
    pub id: String,
    pub title: String,
    pub author_name: String,
}

pub ghost struct BookWithAuthorView {
    pub id: Seq<char>,
    pub title: Seq<char>,
    pub author_name: Seq<char>,
}

impl View for BookWithAuthor {
    type V = BookWithAuthorView;

    open spec fn view(&self) -> BookWithAuthorView {
        BookWithAuthorView { id: self.id@, title: self.title@, author_name: self.author_name@ }
    }
}

} // verus!
