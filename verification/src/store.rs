//! The store: four collections of documents that refer to each other by
//! identifier, and the rules that every state of it meets.

use crate::changes::{
    author_changed, book_by, book_changed, book_is_not, books_of, has_sale_for,
    lemma_books_of_holds, lemma_found_review, lemma_found_sale, lemma_found_slot,
    lemma_recomputed_total, lemma_with_author, lemma_with_author_at, lemma_with_book,
    lemma_with_book_at, lemma_with_review, lemma_with_review_at, lemma_with_sale,
    lemma_with_sale_at, lemma_without_author_at, lemma_without_book, lemma_without_review_at,
    lemma_without_sale_at, recomputed, review_change_refusal, review_not_of, review_position,
    review_refusal, sale_change_refusal, sale_changed, sale_deleted, sale_merges, sale_not_of,
    sale_position, sale_recorded, sale_refusal, sales_changed, with_author, with_author_at,
    with_book, with_book_at, with_review, with_review_at, without_author, without_book,
    without_books, without_review_at, without_sale_at,
};
use crate::dates::{parse_year, year_of_opt};
use crate::measures::{author_position, book_position, units_of_book};
use crate::models::{
    clone_text, text_of, Author, AuthorView, Book, BookView, Review, ReviewView, Sale,
};
use crate::object_id::{lemma_same_bytes, ObjectId};
use crate::seqs::{
    lemma_filter_member, lemma_sum_all, lemma_sum_prefix_le, lemma_sum_step, lemma_views_push,
    lemma_views_remove, lemma_views_update, sum_by, views,
};
use crate::text::chars_of;
use crate::totals::{
    lemma_totals_after_change, lemma_totals_after_delete, lemma_totals_after_record,
    lemma_totals_beside_books, lemma_totals_with_book, lemma_totals_with_book_at,
    lemma_totals_without_author, lemma_totals_without_book, totals_follow_sales,
};
use vstd::prelude::*;

verus! {

/// The most reviews a store holds: their scores then sum within an `i64`.
pub const MAX_REVIEWS: usize = 0x7fff_ffff;

/// The most books a store holds.
pub const MAX_BOOKS: usize = 0x7fff_ffff;

/// The model of a store: its four collections, each in insertion order.
pub ghost struct StoreView {
    pub authors: Seq<AuthorView>,
    pub books: Seq<BookView>,
    pub reviews: Seq<ReviewView>,
    pub sales: Seq<Sale>,
}

/// Whether `authors` holds an author with the identifier `id`.
pub open spec fn has_author(authors: Seq<AuthorView>, id: ObjectId) -> bool {
    exists|i: int| 0 <= i < authors.len() && (#[trigger] authors[i]).id == id
}

/// Whether `books` holds a book with the identifier `id`.
pub open spec fn has_book(books: Seq<BookView>, id: ObjectId) -> bool {
    exists|i: int| 0 <= i < books.len() && (#[trigger] books[i]).id == id
}

/// Whether `reviews` holds a review with the identifier `id`.
pub open spec fn has_review(reviews: Seq<ReviewView>, id: ObjectId) -> bool {
    exists|i: int| 0 <= i < reviews.len() && (#[trigger] reviews[i]).id == id
}

/// Whether `sales` holds a sale with the identifier `id`.
pub open spec fn has_sale(sales: Seq<Sale>, id: ObjectId) -> bool {
    exists|i: int| 0 <= i < sales.len() && (#[trigger] sales[i]).id == id
}

/// The units of one sale.
pub open spec fn units_of(s: Sale) -> int {
    s.units as int
}

/// The units of all sales together.
pub open spec fn all_units(sales: Seq<Sale>) -> int {
    sum_by(sales, |s: Sale| units_of(s))
}

/// No two authors share an identifier.
pub open spec fn author_ids_distinct(authors: Seq<AuthorView>) -> bool {
    forall|i: int, j: int|
        0 <= i < j < authors.len() ==> (#[trigger] authors[i]).id != (#[trigger] authors[j]).id
}

/// No two books share an identifier.
pub open spec fn book_ids_distinct(books: Seq<BookView>) -> bool {
    forall|i: int, j: int|
        0 <= i < j < books.len() ==> (#[trigger] books[i]).id != (#[trigger] books[j]).id
}

/// No two reviews share an identifier.
pub open spec fn review_ids_distinct(reviews: Seq<ReviewView>) -> bool {
    forall|i: int, j: int|
        0 <= i < j < reviews.len() ==> (#[trigger] reviews[i]).id != (#[trigger] reviews[j]).id
}

/// No two sales share an identifier.
pub open spec fn sale_ids_distinct(sales: Seq<Sale>) -> bool {
    forall|i: int, j: int|
        0 <= i < j < sales.len() ==> (#[trigger] sales[i]).id != (#[trigger] sales[j]).id
}

/// Every book names an author of `authors`.
pub open spec fn books_have_authors(authors: Seq<AuthorView>, books: Seq<BookView>) -> bool {
    forall|i: int| 0 <= i < books.len() ==> has_author(authors, (#[trigger] books[i]).author_id)
}

/// Every review names a book of `books`.
pub open spec fn reviews_have_books(books: Seq<BookView>, reviews: Seq<ReviewView>) -> bool {
    forall|i: int| 0 <= i < reviews.len() ==> has_book(books, (#[trigger] reviews[i]).book_id)
}

/// Every sale names a book of `books`.
pub open spec fn sales_have_books(books: Seq<BookView>, sales: Seq<Sale>) -> bool {
    forall|i: int| 0 <= i < sales.len() ==> has_book(books, (#[trigger] sales[i]).book_id)
}

/// Every score lies between 1 and 5 and no count of up-votes is negative.
pub open spec fn scores_in_range(reviews: Seq<ReviewView>) -> bool {
    forall|i: int|
        0 <= i < reviews.len() ==> 1 <= (#[trigger] reviews[i]).score <= 5 && reviews[i].up_votes
            >= 0
}

/// No sale has negative units.
pub open spec fn units_not_negative(sales: Seq<Sale>) -> bool {
    forall|i: int| 0 <= i < sales.len() ==> (#[trigger] sales[i]).units >= 0
}

/// Every publication date has a year.
pub open spec fn dates_have_years(books: Seq<BookView>) -> bool {
    forall|i: int|
        0 <= i < books.len() && (#[trigger] books[i]).publication_date is Some ==> year_of_opt(
            books[i].publication_date,
        ) is Some
}

/// A book has at most one sale for a year.
pub open spec fn one_sale_per_year(sales: Seq<Sale>) -> bool {
    forall|i: int, j: int|
        0 <= i < j < sales.len() ==> !((#[trigger] sales[i]).book_id
            == (#[trigger] sales[j]).book_id
            && sales[i].year == sales[j].year)
}

impl StoreView {
    /// No two documents of a collection share an identifier.
    pub open spec fn ids_distinct(self) -> bool {
        &&& author_ids_distinct(self.authors)
        &&& book_ids_distinct(self.books)
        &&& review_ids_distinct(self.reviews)
        &&& sale_ids_distinct(self.sales)
    }

    /// Every book names an author of the store, and every review and sale
    /// a book of the store.
    pub open spec fn references_resolve(self) -> bool {
        &&& books_have_authors(self.authors, self.books)
        &&& reviews_have_books(self.books, self.reviews)
        &&& sales_have_books(self.books, self.sales)
    }

    /// Scores lie between 1 and 5, up-votes and units are not negative, and
    /// a publication date has a year.
    pub open spec fn values_in_range(self) -> bool {
        &&& scores_in_range(self.reviews)
        &&& units_not_negative(self.sales)
        &&& dates_have_years(self.books)
    }

    /// The counts and the sums of the reports fit in an `i64`.
    pub open spec fn within_limits(self) -> bool {
        &&& self.reviews.len() <= MAX_REVIEWS
        &&& self.books.len() <= MAX_BOOKS
        &&& all_units(self.sales) <= i64::MAX
    }

    /// The rules that every state of a store meets.
    pub open spec fn wf(self) -> bool {
        &&& self.ids_distinct()
        &&& self.references_resolve()
        &&& self.values_in_range()
        &&& one_sale_per_year(self.sales)
        &&& self.within_limits()
    }
}

/// Why the store refused a write.
#[derive(Debug, Clone, Copy, PartialEq, Eq, Structural)]
pub enum StoreError {
    /// The store holds a document with the identifier of the new one.
    DuplicateId,
    /// The author that a book names is not in the store.
    UnknownAuthor,
    /// The book that a review or a sale names is not in the store.
    UnknownBook,
    /// The publication date has no year.
    InvalidPublicationDate,
    /// The score is not between 1 and 5, or the up-votes are negative.
    InvalidReview,
    /// The units are negative.
    NegativeUnits,
    /// The collection holds as many documents as a store takes.
    Full,
    /// The units of all sales would no longer fit in an `i64`.
    TooManyUnits,
    /// A text that should name a document is not an identifier.
    InvalidId,
}

/// The store.
pub struct Store {
    authors: Vec<Author>,
    books: Vec<Book>,
    reviews: Vec<Review>,
    sales: Vec<Sale>,
}

impl View for Store {
    type V = StoreView;

    closed spec fn view(&self) -> StoreView {
        StoreView {
            authors: views(self.authors@),
            books: views(self.books@),
            reviews: views(self.reviews@),
            sales: self.sales@,
        }
    }
}

/// Whether two identifiers are the same.
pub fn same_id(a: &ObjectId, b: &ObjectId) -> (out: bool)
    ensures
        out == (*a == *b),
{
    let out = *a == *b;
    proof {
        if out {
            lemma_same_bytes(*a, *b);
        }
    }
    out
}

impl Store {
    /// A store without documents.
    pub fn new() -> (out: Store)
        ensures
            out@.wf(),
            out@.authors.len() == 0,
            out@.books.len() == 0,
            out@.reviews.len() == 0,
            out@.sales.len() == 0,
            totals_follow_sales(out@),
    {
        let out = Store {
            authors: Vec::new(),
            books: Vec::new(),
            reviews: Vec::new(),
            sales: Vec::new(),
        };
        proof {
            assert(all_units(out@.sales) == 0);
        }
        out
    }

    /// The authors, in the order in which they came.
    pub fn authors(&self) -> (out: &Vec<Author>)
        ensures
            views(out@) == self@.authors,
    {
        &self.authors
    }

    /// The books, in the order in which they came.
    pub fn books(&self) -> (out: &Vec<Book>)
        ensures
            views(out@) == self@.books,
    {
        &self.books
    }

    /// The reviews, in the order in which they came.
    pub fn reviews(&self) -> (out: &Vec<Review>)
        ensures
            views(out@) == self@.reviews,
    {
        &self.reviews
    }

    /// The sales, in the order in which they came.
    pub fn sales(&self) -> (out: &Vec<Sale>)
        ensures
            out@ == self@.sales,
    {
        &self.sales
    }
}

/// The position of the author `id`, if the collection holds it.
pub fn find_author(authors: &Vec<Author>, id: &ObjectId) -> (out: Option<usize>)
    ensures
        out is None ==> !has_author(views(authors@), *id),
        out matches Some(i) ==> i < authors.len() && authors@[i as int].id == *id && forall|
            k: int,
        | 0 <= k < i ==> (#[trigger] authors@[k]).id != *id,
{
    let mut i: usize = 0;
    while i < authors.len()
        invariant
            i <= authors.len(),
            forall|k: int| 0 <= k < i ==> (#[trigger] authors@[k]).id != *id,
        decreases authors.len() - i,
    {
        if same_id(&authors[i].id, id) {
            return Some(i);
        }
        i += 1;
    }
    proof {
        assert forall|k: int| 0 <= k < authors.len() implies (#[trigger] views(authors@)[k]).id
            != *id by {
            assert(authors@[k].id != *id);
        }
    }
    None
}

/// The position of the book `id`, if the collection holds it.
pub fn find_book(books: &Vec<Book>, id: &ObjectId) -> (out: Option<usize>)
    ensures
        out is None ==> !has_book(views(books@), *id),
        out matches Some(i) ==> i < books.len() && books@[i as int].id == *id && forall|k: int|
            0 <= k < i ==> (#[trigger] books@[k]).id != *id,
{
    let mut i: usize = 0;
    while i < books.len()
        invariant
            i <= books.len(),
            forall|k: int| 0 <= k < i ==> (#[trigger] books@[k]).id != *id,
        decreases books.len() - i,
    {
        if same_id(&books[i].id, id) {
            return Some(i);
        }
        i += 1;
    }
    proof {
        assert forall|k: int| 0 <= k < books.len() implies (#[trigger] views(books@)[k]).id
            != *id by {
            assert(books@[k].id != *id);
        }
    }
    None
}

/// The position of the review `id`, if the collection holds it.
pub fn find_review(reviews: &Vec<Review>, id: &ObjectId) -> (out: Option<usize>)
    ensures
        out is None ==> !has_review(views(reviews@), *id),
        out matches Some(i) ==> i < reviews.len() && reviews@[i as int].id == *id && forall|
            k: int,
        | 0 <= k < i ==> (#[trigger] reviews@[k]).id != *id,
{
    let mut i: usize = 0;
    while i < reviews.len()
        invariant
            i <= reviews.len(),
            forall|k: int| 0 <= k < i ==> (#[trigger] reviews@[k]).id != *id,
        decreases reviews.len() - i,
    {
        if same_id(&reviews[i].id, id) {
            return Some(i);
        }
        i += 1;
    }
    proof {
        assert forall|k: int| 0 <= k < reviews.len() implies (#[trigger] views(reviews@)[k]).id
            != *id by {
            assert(reviews@[k].id != *id);
        }
    }
    None
}

/// The position of the sale `id`, if the collection holds it.
pub fn find_sale(sales: &Vec<Sale>, id: &ObjectId) -> (out: Option<usize>)
    ensures
        out is None ==> !has_sale(sales@, *id),
        out matches Some(i) ==> i < sales.len() && sales@[i as int].id == *id && forall|k: int|
            0 <= k < i ==> (#[trigger] sales@[k]).id != *id,
{
    let mut i: usize = 0;
    while i < sales.len()
        invariant
            i <= sales.len(),
            forall|k: int| 0 <= k < i ==> (#[trigger] sales@[k]).id != *id,
        decreases sales.len() - i,
    {
        if same_id(&sales[i].id, id) {
            return Some(i);
        }
        i += 1;
    }
    None
}

/// Whether `date`, if given, has a year.
pub fn date_is_valid(date: &Option<String>) -> (out: bool)
    ensures
        out == (date is Some ==> year_of_opt(text_of(*date)) is Some),
{
    match date {
        Some(text) => parse_year(&chars_of(text.as_str())).is_some(),
        None => true,
    }
}

/// The given text, or a copy of the old one where none is given.
fn given_or_old(given: Option<String>, old: &Option<String>) -> (out: Option<String>)
    ensures
        text_of(out) == crate::changes::or_old(text_of(given), text_of(*old)),
{
    match given {
        Some(text) => Some(text),
        None => clone_text(old),
    }
}

/// Why the store does not take `b` as a new book, if it does not.
pub open spec fn book_refusal(st: StoreView, b: BookView) -> Option<StoreError> {
    if !has_author(st.authors, b.author_id) {
        Some(StoreError::UnknownAuthor)
    } else if has_book(st.books, b.id) {
        Some(StoreError::DuplicateId)
    } else if b.publication_date is Some && year_of_opt(b.publication_date) is None {
        Some(StoreError::InvalidPublicationDate)
    } else if st.books.len() >= MAX_BOOKS {
        Some(StoreError::Full)
    } else {
        None
    }
}

/// Why the store does not take a change of a book, if it does not.
pub open spec fn book_change_refusal(
    st: StoreView,
    author_id: ObjectId,
    publication_date: Option<Seq<char>>,
) -> Option<StoreError> {
    if !has_author(st.authors, author_id) {
        Some(StoreError::UnknownAuthor)
    } else if publication_date is Some && year_of_opt(publication_date) is None {
        Some(StoreError::InvalidPublicationDate)
    } else {
        None
    }
}

/// The position that a search by identifier found is the position of the
/// document.
proof fn lemma_found_author(st: StoreView, at: int, id: ObjectId)
    requires
        author_ids_distinct(st.authors),
        0 <= at < st.authors.len(),
        st.authors[at].id == id,
    ensures
        has_author(st.authors, id),
        author_position(st.authors, id) == at,
{
    let p = author_position(st.authors, id);
    if p < at {
        assert(st.authors[p].id != st.authors[at].id);
    } else if at < p {
        assert(st.authors[at].id != st.authors[p].id);
    }
}

proof fn lemma_found_book(st: StoreView, at: int, id: ObjectId)
    requires
        book_ids_distinct(st.books),
        0 <= at < st.books.len(),
        st.books[at].id == id,
    ensures
        has_book(st.books, id),
        book_position(st.books, id) == at,
{
    let p = book_position(st.books, id);
    if p < at {
        assert(st.books[p].id != st.books[at].id);
    } else if at < p {
        assert(st.books[at].id != st.books[p].id);
    }
}

impl Store {
    /// Adds an author, unless the store holds one with the same
    /// identifier.
    pub fn insert_author(&mut self, author: Author) -> (out: Result<(), StoreError>)
        requires
            old(self)@.wf(),
        ensures
            final(self)@.wf(),
            has_author(old(self)@.authors, author.id) ==> out == Err::<(), _>(
                StoreError::DuplicateId,
            ) && final(self)@ == old(self)@,
            !has_author(old(self)@.authors, author.id) ==> out is Ok && final(self)@ == with_author(
                old(self)@,
                author@,
            ),
            totals_follow_sales(old(self)@) ==> totals_follow_sales(final(self)@),
    {
        proof {
            if totals_follow_sales(self@) {
                lemma_totals_beside_books(self@, self@.authors.push(author@), self@.reviews);
            }
        }
        match find_author(&self.authors, &author.id) {
            Some(at) => {
                proof {
                    assert(self@.authors[at as int] == self.authors@[at as int]@);
                }
                Err(StoreError::DuplicateId)
            },
            None => {
                proof {
                    lemma_views_push(self.authors@, author);
                    lemma_with_author(self@, author@);
                }
                self.authors.push(author);
                Ok(())
            },
        }
    }

    /// Gives the author `id` a new name and, where one is given, a new
    /// country, description and date of birth. Says whether the store
    /// holds that author.
    pub fn update_author(
        &mut self,
        id: &ObjectId,
        name: String,
        country: Option<String>,
        description: Option<String>,
        date_of_birth: Option<String>,
    ) -> (out: bool)
        requires
            old(self)@.wf(),
        ensures
            final(self)@.wf(),
            out == has_author(old(self)@.authors, *id),
            !out ==> final(self)@ == old(self)@,
            out ==> final(self)@ == with_author_at(
                old(self)@,
                author_position(old(self)@.authors, *id),
                author_changed(
                    old(self)@.authors[author_position(old(self)@.authors, *id)],
                    name@,
                    text_of(country),
                    text_of(description),
                    text_of(date_of_birth),
                ),
            ),
            totals_follow_sales(old(self)@) ==> totals_follow_sales(final(self)@),
    {
        proof {
            if totals_follow_sales(self@) && has_author(self@.authors, *id) {
                let at = author_position(self@.authors, *id);
                lemma_totals_beside_books(
                    self@,
                    self@.authors.update(
                        at,
                        author_changed(
                            self@.authors[at],
                            name@,
                            text_of(country),
                            text_of(description),
                            text_of(date_of_birth),
                        ),
                    ),
                    self@.reviews,
                );
            }
        }
        match find_author(&self.authors, id) {
            Some(at) => {
                let before = &self.authors[at];
                let changed = Author {
                    id: before.id,
                    name,
                    date_of_birth: given_or_old(date_of_birth, &before.date_of_birth),
                    country: given_or_old(country, &before.country),
                    description: given_or_old(description, &before.description),
                    image_path: clone_text(&before.image_path),
                };
                proof {
                    assert(self@.authors[at as int] == self.authors@[at as int]@);
                    lemma_found_author(self@, at as int, *id);
                    lemma_views_update(self.authors@, at as int, changed);
                    lemma_with_author_at(self@, at as int, changed@);
                }
                self.authors.set(at, changed);
                true
            },
            None => false,
        }
    }

    /// Adds a book, unless its author is not in the store, the store holds
    /// a book with the same identifier, its publication date has no year,
    /// or the store is full.
    pub fn insert_book(&mut self, book: Book) -> (out: Result<(), StoreError>)
        requires
            old(self)@.wf(),
        ensures
            final(self)@.wf(),
            book_refusal(old(self)@, book@) matches Some(e) ==> out == Err::<(), _>(e)
                && final(self)@ == old(self)@,
            book_refusal(old(self)@, book@) is None ==> out is Ok && final(self)@ == with_book(
                old(self)@,
                book@,
            ),
            totals_follow_sales(old(self)@) && (book.total_sales is None || book.total_sales
                == Some(0i64)) ==> totals_follow_sales(final(self)@),
    {
        proof {
            if totals_follow_sales(self@) && (book.total_sales is None || book.total_sales == Some(
                0i64,
            )) && !has_book(self@.books, book.id) {
                lemma_totals_with_book(self@, book@);
            }
        }
        if !self.holds_author(&book.author_id) {
            return Err(StoreError::UnknownAuthor);
        }
        match find_book(&self.books, &book.id) {
            Some(at) => {
                proof {
                    assert(self@.books[at as int] == self.books@[at as int]@);
                }
                return Err(StoreError::DuplicateId);
            },
            None => {},
        }
        if !date_is_valid(&book.publication_date) {
            return Err(StoreError::InvalidPublicationDate);
        }
        if self.books.len() >= MAX_BOOKS {
            return Err(StoreError::Full);
        }
        proof {
            lemma_views_push(self.books@, book);
            lemma_with_book(self@, book@);
        }
        self.books.push(book);
        Ok(())
    }

    /// Gives the book `id` a new title and author and, where one is given,
    /// a new summary and publication date. Refuses if the author is not in
    /// the store or the date has no year; else says whether the store
    /// holds that book.
    pub fn update_book(
        &mut self,
        id: &ObjectId,
        title: String,
        author_id: ObjectId,
        summary: Option<String>,
        publication_date: Option<String>,
    ) -> (out: Result<bool, StoreError>)
        requires
            old(self)@.wf(),
        ensures
            final(self)@.wf(),
            book_change_refusal(old(self)@, author_id, text_of(publication_date)) matches Some(e)
                ==> out == Err::<bool, _>(e) && final(self)@ == old(self)@,
            book_change_refusal(old(self)@, author_id, text_of(publication_date)) is None ==> out
                == Ok::<_, StoreError>(has_book(old(self)@.books, *id)),
            out == Ok::<_, StoreError>(false) ==> final(self)@ == old(self)@,
            out == Ok::<_, StoreError>(true) ==> final(self)@ == with_book_at(
                old(self)@,
                book_position(old(self)@.books, *id),
                book_changed(
                    old(self)@.books[book_position(old(self)@.books, *id)],
                    title@,
                    author_id,
                    text_of(summary),
                    text_of(publication_date),
                ),
            ),
            totals_follow_sales(old(self)@) ==> totals_follow_sales(final(self)@),
    {
        proof {
            if totals_follow_sales(self@) && has_book(self@.books, *id) {
                let at = book_position(self@.books, *id);
                lemma_totals_with_book_at(
                    self@,
                    at,
                    book_changed(
                        self@.books[at],
                        title@,
                        author_id,
                        text_of(summary),
                        text_of(publication_date),
                    ),
                );
            }
        }
        if !self.holds_author(&author_id) {
            return Err(StoreError::UnknownAuthor);
        }
        if !date_is_valid(&publication_date) {
            return Err(StoreError::InvalidPublicationDate);
        }
        match find_book(&self.books, id) {
            Some(at) => {
                let before = &self.books[at];
                let changed = Book {
                    id: before.id,
                    author_id,
                    title,
                    summary: given_or_old(summary, &before.summary),
                    publication_date: given_or_old(publication_date, &before.publication_date),
                    total_sales: before.total_sales,
                };
                proof {
                    assert(self@.books[at as int] == self.books@[at as int]@);
                    lemma_found_book(self@, at as int, *id);
                    lemma_views_update(self.books@, at as int, changed);
                    lemma_with_book_at(self@, at as int, changed@);
                }
                self.books.set(at, changed);
                Ok(true)
            },
            None => Ok(false),
        }
    }
}

/// The books but the book `id`.
fn books_but(books: Vec<Book>, id: &ObjectId) -> (out: Vec<Book>)
    ensures
        views(out@) == views(books@).filter(book_is_not(*id)),
{
    let ghost all = views(books@);
    let ghost keep = book_is_not(*id);
    let mut out: Vec<Book> = Vec::new();
    proof {
        reveal(Seq::filter);
        assert(views(out@) =~= all.take(0).filter(keep));
    }
    for b in it: books
        invariant
            it.seq() == books@,
            all == views(books@),
            keep == book_is_not(*id),
            views(out@) == all.take(it.index() as int).filter(keep),
    {
        proof {
            let i = it.index() as int;
            assert(all.take(i + 1) =~= all.take(i).push(b@));
            all.take(i).lemma_filter_push(b@, keep);
            lemma_views_push(out@, b);
        }
        if !same_id(&b.id, id) {
            out.push(b);
        }
    }
    proof {
        assert(all.take(all.len() as int) =~= all);
    }
    out
}

/// The reviews but those of the book `id`.
fn reviews_but(reviews: Vec<Review>, id: &ObjectId) -> (out: Vec<Review>)
    ensures
        views(out@) == views(reviews@).filter(review_not_of(*id)),
{
    let ghost all = views(reviews@);
    let ghost keep = review_not_of(*id);
    let mut out: Vec<Review> = Vec::new();
    proof {
        reveal(Seq::filter);
        assert(views(out@) =~= all.take(0).filter(keep));
    }
    for r in it: reviews
        invariant
            it.seq() == reviews@,
            all == views(reviews@),
            keep == review_not_of(*id),
            views(out@) == all.take(it.index() as int).filter(keep),
    {
        proof {
            let i = it.index() as int;
            assert(all.take(i + 1) =~= all.take(i).push(r@));
            all.take(i).lemma_filter_push(r@, keep);
            lemma_views_push(out@, r);
        }
        if !same_id(&r.book_id, id) {
            out.push(r);
        }
    }
    proof {
        assert(all.take(all.len() as int) =~= all);
    }
    out
}

/// The sales but those of the book `id`.
fn sales_but(sales: Vec<Sale>, id: &ObjectId) -> (out: Vec<Sale>)
    ensures
        out@ == sales@.filter(sale_not_of(*id)),
{
    let ghost all = sales@;
    let ghost keep = sale_not_of(*id);
    let mut out: Vec<Sale> = Vec::new();
    proof {
        reveal(Seq::filter);
        assert(out@ =~= all.take(0).filter(keep));
    }
    for s in it: sales
        invariant
            it.seq() == sales@,
            all == sales@,
            keep == sale_not_of(*id),
            out@ == all.take(it.index() as int).filter(keep),
    {
        proof {
            let i = it.index() as int;
            assert(all.take(i + 1) =~= all.take(i).push(s));
            all.take(i).lemma_filter_push(s, keep);
        }
        if !same_id(&s.book_id, id) {
            out.push(s);
        }
    }
    proof {
        assert(all.take(all.len() as int) =~= all);
    }
    out
}

impl Store {
    /// Removes the book `id` with its reviews and its sales.
    pub fn delete_book(&mut self, id: &ObjectId)
        requires
            old(self)@.wf(),
        ensures
            final(self)@.wf(),
            final(self)@ == without_book(old(self)@, *id),
            totals_follow_sales(old(self)@) ==> totals_follow_sales(final(self)@),
    {
        proof {
            if totals_follow_sales(self@) {
                lemma_totals_without_book(self@, *id);
            }
        }
        proof {
            lemma_without_book(self@, *id);
        }
        let mut reviews: Vec<Review> = Vec::new();
        core::mem::swap(&mut self.reviews, &mut reviews);
        self.reviews = reviews_but(reviews, id);
        let mut sales: Vec<Sale> = Vec::new();
        core::mem::swap(&mut self.sales, &mut sales);
        self.sales = sales_but(sales, id);
        let mut books: Vec<Book> = Vec::new();
        core::mem::swap(&mut self.books, &mut books);
        self.books = books_but(books, id);
    }
}

/// The identifiers of the books of `author`.
fn ids_of_books_by(books: &Vec<Book>, author: &ObjectId) -> (out: Vec<ObjectId>)
    ensures
        out@ == books_of(views(books@), *author),
{
    let ghost all = views(books@);
    let ghost keep = book_by(*author);
    let ghost id_of = |b: BookView| b.id;
    let mut out: Vec<ObjectId> = Vec::new();
    let mut i: usize = 0;
    proof {
        reveal(Seq::filter);
        assert(out@ =~= all.take(0).filter(keep).map_values(id_of));
    }
    while i < books.len()
        invariant
            i <= books.len(),
            all == views(books@),
            keep == book_by(*author),
            id_of == |b: BookView| b.id,
            out@ == all.take(i as int).filter(keep).map_values(id_of),
        decreases books.len() - i,
    {
        proof {
            let b = all[i as int];
            assert(b == books@[i as int]@);
            assert(all.take(i as int + 1) =~= all.take(i as int).push(b));
            all.take(i as int).lemma_filter_push(b, keep);
            let kept = all.take(i as int).filter(keep);
            assert(kept.push(b).map_values(id_of) =~= kept.map_values(id_of).push(b.id));
        }
        if same_id(&books[i].author_id, author) {
            out.push(books[i].id);
        }
        i += 1;
    }
    proof {
        assert(all.take(all.len() as int) =~= all);
    }
    out
}

impl Store {
    /// The identifiers of the books of `author`, in the order of the store.
    pub fn books_by(&self, author: &ObjectId) -> (out: Vec<ObjectId>)
        ensures
            out@ == books_of(self@.books, *author),
    {
        ids_of_books_by(&self.books, author)
    }

    /// Removes the author `id` and, before that, each book of the author
    /// with its reviews and its sales. Returns the identifiers of the books
    /// that went.
    pub fn delete_author(&mut self, id: &ObjectId) -> (out: Vec<ObjectId>)
        requires
            old(self)@.wf(),
        ensures
            final(self)@.wf(),
            out@ == books_of(old(self)@.books, *id),
            final(self)@ == without_author(old(self)@, *id),
            totals_follow_sales(old(self)@) ==> totals_follow_sales(final(self)@),
    {
        proof {
            if totals_follow_sales(self@) {
                lemma_totals_without_author(self@, *id);
            }
        }
        let doomed = ids_of_books_by(&self.books, id);
        let ghost start = self@;
        proof {
            assert(doomed@.skip(0) =~= doomed@);
            assert forall|i: int|
                0 <= i < start.books.len() && (#[trigger] start.books[i]).author_id
                    == *id implies doomed@.skip(0).contains(start.books[i].id) by {
                lemma_books_of_holds(start.books, *id, i);
            }
        }
        let mut k: usize = 0;
        while k < doomed.len()
            invariant
                k <= doomed.len(),
                self@.wf(),
                self@.authors == start.authors,
                without_books(self@, doomed@.skip(k as int)) == without_books(start, doomed@),
                forall|i: int|
                    0 <= i < self@.books.len() && (#[trigger] self@.books[i]).author_id == *id
                        ==> doomed@.skip(k as int).contains(self@.books[i].id),
            decreases doomed.len() - k,
        {
            let ghost before = self@;
            let ghost rest = doomed@.skip(k as int);
            proof {
                assert(rest[0] == doomed@[k as int]);
                assert(rest.drop_first() =~= doomed@.skip(k as int + 1));
            }
            self.delete_book(&doomed[k]);
            proof {
                let after = self@;
                let gone = doomed@[k as int];
                assert forall|i: int|
                    0 <= i < after.books.len() && (#[trigger] after.books[i]).author_id
                        == *id implies doomed@.skip(k as int + 1).contains(after.books[i].id) by {
                    lemma_filter_member(before.books, book_is_not(gone), i);
                    let a = choose|a: int|
                        0 <= a < before.books.len() && #[trigger] before.books[a]
                            == after.books[i];
                    assert(rest.contains(before.books[a].id));
                    let p = choose|p: int| 0 <= p < rest.len() && rest[p] == before.books[a].id;
                    assert(p != 0);
                    assert(doomed@.skip(k as int + 1)[p - 1] == after.books[i].id);
                }
            }
            k += 1;
        }
        proof {
            assert(doomed@.skip(doomed.len() as int).len() == 0);
            assert forall|i: int| 0 <= i < self@.books.len() implies (
            #[trigger] self@.books[i]).author_id != *id by {
                if self@.books[i].author_id == *id {
                    assert(doomed@.skip(doomed.len() as int).contains(self@.books[i].id));
                }
            }
        }
        match find_author(&self.authors, id) {
            Some(at) => {
                proof {
                    assert(self@.authors[at as int] == self.authors@[at as int]@);
                    lemma_found_author(self@, at as int, *id);
                    lemma_views_remove(self.authors@, at as int);
                    lemma_without_author_at(self@, at as int);
                }
                self.authors.remove(at);
            },
            None => {},
        }
        doomed
    }
}

impl Store {
    /// Whether the store holds the book `id`.
    pub fn holds_book(&self, id: &ObjectId) -> (out: bool)
        ensures
            out == has_book(self@.books, *id),
    {
        match find_book(&self.books, id) {
            Some(at) => {
                proof {
                    assert(self@.books[at as int] == self.books@[at as int]@);
                }
                true
            },
            None => false,
        }
    }

    /// Whether the store holds the author `id`.
    pub fn holds_author(&self, id: &ObjectId) -> (out: bool)
        ensures
            out == has_author(self@.authors, *id),
    {
        match find_author(&self.authors, id) {
            Some(at) => {
                proof {
                    assert(self@.authors[at as int] == self.authors@[at as int]@);
                }
                true
            },
            None => false,
        }
    }

    /// Adds a review, unless its book is not in the store, the store holds
    /// a review with the same identifier, its score or up-votes are out of
    /// range, or the store is full.
    pub fn insert_review(&mut self, review: Review) -> (out: Result<(), StoreError>)
        requires
            old(self)@.wf(),
        ensures
            final(self)@.wf(),
            review_refusal(old(self)@, review@) matches Some(e) ==> out == Err::<(), _>(e)
                && final(self)@ == old(self)@,
            review_refusal(old(self)@, review@) is None ==> out is Ok && final(self)@
                == with_review(old(self)@, review@),
            totals_follow_sales(old(self)@) ==> totals_follow_sales(final(self)@),
    {
        proof {
            if totals_follow_sales(self@) {
                lemma_totals_beside_books(self@, self@.authors, self@.reviews.push(review@));
            }
        }
        if !self.holds_book(&review.book_id) {
            return Err(StoreError::UnknownBook);
        }
        match find_review(&self.reviews, &review.id) {
            Some(at) => {
                proof {
                    assert(self@.reviews[at as int] == self.reviews@[at as int]@);
                }
                return Err(StoreError::DuplicateId);
            },
            None => {},
        }
        if !(1 <= review.score && review.score <= 5 && review.up_votes >= 0) {
            return Err(StoreError::InvalidReview);
        }
        if self.reviews.len() >= MAX_REVIEWS {
            return Err(StoreError::Full);
        }
        proof {
            lemma_views_push(self.reviews@, review);
            lemma_with_review(self@, review@);
        }
        self.reviews.push(review);
        Ok(())
    }

    /// Gives the review `id` a new book, text, score and count of
    /// up-votes. Refuses if the book is not in the store or a value is out
    /// of range; else returns the book that the review had, if the store
    /// holds the review.
    pub fn update_review(
        &mut self,
        id: &ObjectId,
        book_id: ObjectId,
        text: String,
        score: i32,
        up_votes: i64,
    ) -> (out: Result<Option<ObjectId>, StoreError>)
        requires
            old(self)@.wf(),
        ensures
            final(self)@.wf(),
            review_change_refusal(old(self)@, book_id, score, up_votes) matches Some(e) ==> out
                == Err::<Option<ObjectId>, _>(e) && final(self)@ == old(self)@,
            review_change_refusal(old(self)@, book_id, score, up_votes) is None ==> out is Ok,
            out matches Ok(None) ==> !has_review(old(self)@.reviews, *id) && final(self)@
                == old(self)@,
            out matches Ok(Some(before)) ==> has_review(old(self)@.reviews, *id) && before
                == old(self)@.reviews[review_position(old(self)@.reviews, *id)].book_id
                    && final(self)@
                == with_review_at(
                old(self)@,
                review_position(old(self)@.reviews, *id),
                ReviewView { id: *id, book_id, text: text@, score, up_votes },
            ),
            totals_follow_sales(old(self)@) ==> totals_follow_sales(final(self)@),
    {
        proof {
            if totals_follow_sales(self@) && has_review(self@.reviews, *id) {
                lemma_totals_beside_books(
                    self@,
                    self@.authors,
                    self@.reviews.update(
                        review_position(self@.reviews, *id),
                        ReviewView { id: *id, book_id, text: text@, score, up_votes },
                    ),
                );
            }
        }
        if !self.holds_book(&book_id) {
            return Err(StoreError::UnknownBook);
        }
        if !(1 <= score && score <= 5 && up_votes >= 0) {
            return Err(StoreError::InvalidReview);
        }
        match find_review(&self.reviews, id) {
            Some(at) => {
                let before = self.reviews[at].book_id;
                let changed = Review { id: self.reviews[at].id, book_id, text, score, up_votes };
                proof {
                    assert(self@.reviews[at as int] == self.reviews@[at as int]@);
                    lemma_found_review(self@.reviews, at as int, *id);
                    lemma_views_update(self.reviews@, at as int, changed);
                    lemma_with_review_at(self@, at as int, changed@);
                }
                self.reviews.set(at, changed);
                Ok(Some(before))
            },
            None => Ok(None),
        }
    }

    /// Removes the review `id` and returns the book that it had, if the
    /// store holds the review.
    pub fn delete_review(&mut self, id: &ObjectId) -> (out: Option<ObjectId>)
        requires
            old(self)@.wf(),
        ensures
            final(self)@.wf(),
            out is None ==> !has_review(old(self)@.reviews, *id) && final(self)@ == old(self)@,
            out matches Some(before) ==> has_review(old(self)@.reviews, *id) && before
                == old(self)@.reviews[review_position(old(self)@.reviews, *id)].book_id
                    && final(self)@
                == without_review_at(old(self)@, review_position(old(self)@.reviews, *id)),
            totals_follow_sales(old(self)@) ==> totals_follow_sales(final(self)@),
    {
        proof {
            if totals_follow_sales(self@) && has_review(self@.reviews, *id) {
                lemma_totals_beside_books(
                    self@,
                    self@.authors,
                    self@.reviews.remove(review_position(self@.reviews, *id)),
                );
            }
        }
        match find_review(&self.reviews, id) {
            Some(at) => {
                let before = self.reviews[at].book_id;
                proof {
                    assert(self@.reviews[at as int] == self.reviews@[at as int]@);
                    lemma_found_review(self@.reviews, at as int, *id);
                    lemma_views_remove(self.reviews@, at as int);
                    lemma_without_review_at(self@, at as int);
                }
                self.reviews.remove(at);
                Some(before)
            },
            None => None,
        }
    }
}

/// The position of the sale of `book` for `year`, if there is one.
fn find_slot(sales: &Vec<Sale>, book: &ObjectId, year: i32) -> (out: Option<usize>)
    ensures
        out is None ==> !has_sale_for(sales@, *book, year),
        out matches Some(i) ==> i < sales.len() && sales@[i as int].book_id == *book
            && sales@[i as int].year == year,
{
    let mut i: usize = 0;
    while i < sales.len()
        invariant
            i <= sales.len(),
            forall|k: int|
                0 <= k < i ==> !((#[trigger] sales@[k]).book_id == *book && sales@[k].year
                    == year),
        decreases sales.len() - i,
    {
        if same_id(&sales[i].book_id, book) && sales[i].year == year {
            return Some(i);
        }
        i += 1;
    }
    None
}

/// The units of all sales.
fn total_units(sales: &Vec<Sale>) -> (out: i64)
    requires
        units_not_negative(sales@),
        all_units(sales@) <= i64::MAX,
    ensures
        out == all_units(sales@),
        0 <= out,
{
    let ghost f = |s: Sale| units_of(s);
    let mut total: i64 = 0;
    let mut i: usize = 0;
    while i < sales.len()
        invariant
            i <= sales.len(),
            f == |s: Sale| units_of(s),
            units_not_negative(sales@),
            all_units(sales@) <= i64::MAX,
            total == sum_by(sales@.take(i as int), f),
            0 <= total,
        decreases sales.len() - i,
    {
        proof {
            lemma_sum_step(sales@, i as int, f);
            lemma_sum_prefix_le(sales@, i as int + 1, f);
        }
        total = total + sales[i].units;
        i += 1;
    }
    proof {
        lemma_sum_all(sales@);
    }
    total
}

impl Store {
    /// Writes the total sales of `book` anew: the sum of the units of its
    /// sales.
    pub fn recompute_book_total(&mut self, book: &ObjectId)
        requires
            old(self)@.wf(),
        ensures
            final(self)@.wf(),
            final(self)@ == recomputed(old(self)@, *book),
            final(self)@.sales == old(self)@.sales,
            totals_follow_sales(old(self)@) ==> totals_follow_sales(final(self)@),
    {
        proof {
            if totals_follow_sales(self@) {
                crate::totals::lemma_totals_all_after(self@, *book);
            }
        }
        match find_book(&self.books, book) {
            Some(at) => {
                let total = units_of_book(&self.sales, book);
                let before = &self.books[at];
                let changed = Book {
                    id: before.id,
                    author_id: before.author_id,
                    title: before.title.clone(),
                    summary: clone_text(&before.summary),
                    publication_date: clone_text(&before.publication_date),
                    total_sales: Some(total),
                };
                proof {
                    assert(self@.books[at as int] == self.books@[at as int]@);
                    lemma_found_book(self@, at as int, *book);
                    lemma_views_update(self.books@, at as int, changed);
                    lemma_recomputed_total(self@, *book);
                }
                self.books.set(at, changed);
            },
            None => {},
        }
    }

    /// Records the units that `book` sold in `year`. A sale of that book
    /// for that year takes the new units; if there is none, a new sale with
    /// the identifier `id` is added. Then the total of the book is written
    /// anew.
    pub fn record_sale(&mut self, id: ObjectId, book: ObjectId, year: i32, units: i64) -> (out:
        Result<(), StoreError>)
        requires
            old(self)@.wf(),
        ensures
            final(self)@.wf(),
            sale_refusal(old(self)@, id, book, year, units) matches Some(e) ==> out == Err::<(), _>(
                e,
            ) && final(self)@ == old(self)@,
            sale_refusal(old(self)@, id, book, year, units) is None ==> out is Ok && final(self)@
                == sale_recorded(old(self)@, id, book, year, units),
            totals_follow_sales(old(self)@) ==> totals_follow_sales(final(self)@),
    {
        proof {
            if totals_follow_sales(self@) && sale_refusal(self@, id, book, year, units) is None {
                lemma_totals_after_record(self@, id, book, year, units);
            }
        }
        if !self.holds_book(&book) {
            return Err(StoreError::UnknownBook);
        }
        if units < 0 {
            return Err(StoreError::NegativeUnits);
        }
        let all = total_units(&self.sales);
        match find_slot(&self.sales, &book, year) {
            Some(at) => {
                proof {
                    lemma_found_slot(self@.sales, at as int, book, year);
                }
                let before = self.sales[at];
                if all as i128 - before.units as i128 + units as i128 > i64::MAX as i128 {
                    return Err(StoreError::TooManyUnits);
                }
                let changed = Sale {
                    id: before.id,
                    book_id: before.book_id,
                    year: before.year,
                    units,
                };
                proof {
                    lemma_with_sale_at(self@, at as int, changed);
                }
                self.sales.set(at, changed);
            },
            None => {
                match find_sale(&self.sales, &id) {
                    Some(_) => {
                        return Err(StoreError::DuplicateId);
                    },
                    None => {},
                }
                if all as i128 + units as i128 > i64::MAX as i128 {
                    return Err(StoreError::TooManyUnits);
                }
                let added = Sale { id, book_id: book, year, units };
                proof {
                    lemma_with_sale(self@, added);
                }
                self.sales.push(added);
            },
        }
        self.recompute_book_total(&book);
        Ok(())
    }

    /// Removes the sale `id` and writes the total of its book anew.
    /// Returns that book, if the store holds the sale.
    pub fn delete_sale(&mut self, id: &ObjectId) -> (out: Option<ObjectId>)
        requires
            old(self)@.wf(),
        ensures
            final(self)@.wf(),
            out is None ==> !has_sale(old(self)@.sales, *id) && final(self)@ == old(self)@,
            out matches Some(book) ==> has_sale(old(self)@.sales, *id) && book
                == old(self)@.sales[sale_position(old(self)@.sales, *id)].book_id && final(self)@
                    == sale_deleted(
                old(self)@,
                sale_position(old(self)@.sales, *id),
            ),
            totals_follow_sales(old(self)@) ==> totals_follow_sales(final(self)@),
    {
        proof {
            if totals_follow_sales(self@) && has_sale(self@.sales, *id) {
                lemma_totals_after_delete(self@, sale_position(self@.sales, *id));
            }
        }
        match find_sale(&self.sales, id) {
            Some(at) => {
                let book = self.sales[at].book_id;
                proof {
                    lemma_found_sale(self@.sales, at as int, *id);
                    lemma_without_sale_at(self@, at as int);
                }
                self.sales.remove(at);
                self.recompute_book_total(&book);
                Some(book)
            },
            None => None,
        }
    }
}

impl Store {
    /// Gives the sale `id` a new book, year and units. Where that makes it
    /// a second sale of the book for the year, the sale that was there
    /// takes the units and the changed one goes. The totals of the book
    /// that the sale had and of the book that it has are written anew.
    /// Returns the book that the sale had, if the store holds the sale;
    /// if not, only the total of `book` is written anew.
    pub fn update_sale(&mut self, id: &ObjectId, book: ObjectId, year: i32, units: i64) -> (out:
        Result<Option<ObjectId>, StoreError>)
        requires
            old(self)@.wf(),
        ensures
            final(self)@.wf(),
            sale_change_refusal(old(self)@, *id, book, year, units) matches Some(e) ==> out
                == Err::<Option<ObjectId>, _>(e) && final(self)@ == old(self)@,
            sale_change_refusal(old(self)@, *id, book, year, units) is None ==> out is Ok
                && final(self)@ == sale_changed(old(self)@, *id, book, year, units),
            out matches Ok(None) ==> !has_sale(old(self)@.sales, *id),
            out matches Ok(Some(before)) ==> has_sale(old(self)@.sales, *id) && before
                == old(self)@.sales[sale_position(old(self)@.sales, *id)].book_id,
            totals_follow_sales(old(self)@) ==> totals_follow_sales(final(self)@),
    {
        proof {
            if totals_follow_sales(self@) && sale_change_refusal(self@, *id, book, year, units)
                is None {
                lemma_totals_after_change(self@, *id, book, year, units);
            }
        }
        if !self.holds_book(&book) {
            return Err(StoreError::UnknownBook);
        }
        if units < 0 {
            return Err(StoreError::NegativeUnits);
        }
        let ghost start = self@;
        match find_sale(&self.sales, id) {
            None => {
                self.recompute_book_total(&book);
                Ok(None)
            },
            Some(at) => {
                proof {
                    lemma_found_sale(self@.sales, at as int, *id);
                }
                let before = self.sales[at];
                let all = total_units(&self.sales);
                let moved = !(same_id(&before.book_id, &book) && before.year == year);
                let target = if moved {
                    find_slot(&self.sales, &book, year)
                } else {
                    None
                };
                match target {
                    Some(other_at) => {
                        proof {
                            lemma_found_slot(self@.sales, other_at as int, book, year);
                            assert(sale_merges(start, at as int, book, year));
                        }
                        let other = self.sales[other_at];
                        if all as i128 - before.units as i128 - other.units as i128 + units as i128
                            > i64::MAX as i128 {
                            return Err(StoreError::TooManyUnits);
                        }
                        proof {
                            lemma_without_sale_at(self@, at as int);
                        }
                        self.sales.remove(at);
                        let slot: usize = if other_at < at {
                            other_at
                        } else {
                            (other_at - 1) as usize
                        };
                        let changed = Sale {
                            id: other.id,
                            book_id: other.book_id,
                            year: other.year,
                            units,
                        };
                        proof {
                            let removed = self@;
                            assert(removed == without_sale_at(start, at as int));
                            assert(removed.sales[slot as int] == other);
                            lemma_found_slot(removed.sales, slot as int, book, year);
                            assert forall|i: int|
                                0 <= i < removed.sales.len() && i != slot implies !((
                            #[trigger] removed.sales[i]).book_id == changed.book_id
                                && removed.sales[i].year == changed.year) by {
                                if i < slot {
                                    assert(!(removed.sales[i].book_id
                                        == removed.sales[slot as int].book_id
                                        && removed.sales[i].year
                                            == removed.sales[slot as int].year));
                                } else {
                                    assert(!(removed.sales[slot as int].book_id
                                        == removed.sales[i].book_id
                                            && removed.sales[slot as int].year
                                        == removed.sales[i].year));
                                }
                            }
                            lemma_with_sale_at(removed, slot as int, changed);
                        }
                        self.sales.set(slot, changed);
                    },
                    None => {
                        proof {
                            assert(!sale_merges(start, at as int, book, year));
                        }
                        if all as i128 - before.units as i128 + units as i128 > i64::MAX as i128 {
                            return Err(StoreError::TooManyUnits);
                        }
                        let changed = Sale { id: before.id, book_id: book, year, units };
                        proof {
                            assert forall|i: int|
                                0 <= i < start.sales.len() && i != at implies !((
                            #[trigger] start.sales[i]).book_id == book && start.sales[i].year
                                == year) by {
                                if !moved {
                                    if i < at {
                                        assert(!(start.sales[i].book_id
                                            == start.sales[at as int].book_id
                                            && start.sales[i].year == start.sales[at as int].year));
                                    } else {
                                        assert(!(start.sales[at as int].book_id
                                            == start.sales[i].book_id
                                            && start.sales[at as int].year == start.sales[i].year));
                                    }
                                }
                            }
                            lemma_with_sale_at(self@, at as int, changed);
                        }
                        self.sales.set(at, changed);
                    },
                }
                proof {
                    assert(self@ == sales_changed(start, at as int, book, year, units));
                }
                self.recompute_book_total(&before.book_id);
                self.recompute_book_total(&book);
                Ok(Some(before.book_id))
            },
        }
    }
}

} // verus!
