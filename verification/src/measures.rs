//! What the reports measure: the units, the reviews and the scores of a
//! book, and of all the books of an author.

use crate::models::{AuthorView, Book, BookView, Review, ReviewView, Sale};
use crate::object_id::ObjectId;
use crate::seqs::{lemma_sum_all, lemma_sum_le, lemma_sum_prefix_le, lemma_sum_step, sum_by, views};
use crate::store::{
    all_units, book_ids_distinct, find_book, has_author, has_book, reviews_have_books,
    sales_have_books, same_id, scores_in_range, units_not_negative, units_of, MAX_REVIEWS,
    StoreView,
};
use vstd::prelude::*;

verus! {

/// The position of the book `id` in `books`.
pub open spec fn book_position(books: Seq<BookView>, id: ObjectId) -> int {
    choose|i: int| 0 <= i < books.len() && (#[trigger] books[i]).id == id
}

/// The author of the book `id`, if `books` holds that book.
pub open spec fn book_author(books: Seq<BookView>, id: ObjectId) -> Option<ObjectId> {
    if has_book(books, id) {
        Some(books[book_position(books, id)].author_id)
    } else {
        None
    }
}

/// The position of the author `id` in `authors`.
pub open spec fn author_position(authors: Seq<AuthorView>, id: ObjectId) -> int {
    choose|i: int| 0 <= i < authors.len() && (#[trigger] authors[i]).id == id
}

/// The name of the author `id`; empty if `authors` does not hold that
/// author.
pub open spec fn author_name(authors: Seq<AuthorView>, id: ObjectId) -> Seq<char> {
    if has_author(authors, id) {
        authors[author_position(authors, id)].name
    } else {
        Seq::empty()
    }
}

/// The units of a sale if it is a sale of `book`, else nothing.
pub open spec fn units_for_book(book: ObjectId) -> spec_fn(Sale) -> int {
    |s: Sale| if s.book_id == book { s.units as int } else { 0 }
}

/// One for a review of `book`, else nothing.
pub open spec fn one_for_book(book: ObjectId) -> spec_fn(ReviewView) -> int {
    |r: ReviewView| if r.book_id == book { 1int } else { 0 }
}

/// The score of a review if it is a review of `book`, else nothing.
pub open spec fn score_for_book(book: ObjectId) -> spec_fn(ReviewView) -> int {
    |r: ReviewView| if r.book_id == book { r.score as int } else { 0 }
}

/// The units of a sale if its book is one of `author`, else nothing.
pub open spec fn units_for_author(books: Seq<BookView>, author: ObjectId) -> spec_fn(Sale) -> int {
    |s: Sale| if book_author(books, s.book_id) == Some(author) { s.units as int } else { 0 }
}

/// One for a review of a book of `author`, else nothing.
pub open spec fn one_for_author(books: Seq<BookView>, author: ObjectId) -> spec_fn(
    ReviewView,
) -> int {
    |r: ReviewView| if book_author(books, r.book_id) == Some(author) { 1int } else { 0 }
}

/// The score of a review if its book is one of `author`, else nothing.
pub open spec fn score_for_author(books: Seq<BookView>, author: ObjectId) -> spec_fn(
    ReviewView,
) -> int {
    |r: ReviewView| if book_author(books, r.book_id) == Some(author) { r.score as int } else { 0 }
}

/// One for a book of `author`, else nothing.
pub open spec fn one_for_book_of(author: ObjectId) -> spec_fn(BookView) -> int {
    |b: BookView| if b.author_id == author { 1int } else { 0 }
}

/// The units sold of `book`: the sum of the units of its sales.
pub open spec fn book_units(sales: Seq<Sale>, book: ObjectId) -> int {
    sum_by(sales, units_for_book(book))
}

/// The number of reviews of `book`.
pub open spec fn book_review_count(reviews: Seq<ReviewView>, book: ObjectId) -> int {
    sum_by(reviews, one_for_book(book))
}

/// The sum of the scores of the reviews of `book`.
pub open spec fn book_score_total(reviews: Seq<ReviewView>, book: ObjectId) -> int {
    sum_by(reviews, score_for_book(book))
}

/// The number of books of `author`.
pub open spec fn author_book_count(books: Seq<BookView>, author: ObjectId) -> int {
    sum_by(books, one_for_book_of(author))
}

/// The units sold of all books of `author`: each sale of such a book
/// counted once.
pub open spec fn author_units(st: StoreView, author: ObjectId) -> int {
    sum_by(st.sales, units_for_author(st.books, author))
}

/// The number of reviews of the books of `author`.
pub open spec fn author_review_count(st: StoreView, author: ObjectId) -> int {
    sum_by(st.reviews, one_for_author(st.books, author))
}

/// The sum of the scores of the reviews of the books of `author`.
pub open spec fn author_score_total(st: StoreView, author: ObjectId) -> int {
    sum_by(st.reviews, score_for_author(st.books, author))
}

/// A sum of units of some of the sales, over a prefix of them, stays within
/// the units of all sales.
pub proof fn lemma_units_within(sales: Seq<Sale>, i: int, f: spec_fn(Sale) -> int)
    requires
        0 <= i <= sales.len(),
        units_not_negative(sales),
        forall|k: int| 0 <= k < sales.len() ==> 0 <= f(#[trigger] sales[k]) <= sales[k].units,
    ensures
        0 <= sum_by(sales.take(i), f) <= all_units(sales),
{
    lemma_sum_prefix_le(sales, i, f);
    let g = |s: Sale| units_of(s);
    assert forall|k: int| 0 <= k < sales.len() implies f(#[trigger] sales[k]) <= g(sales[k]) by {}
    lemma_sum_le(sales, f, g);
}

/// The units sold of `book`.
pub(crate) fn units_of_book(sales: &Vec<Sale>, book: &ObjectId) -> (out: i64)
    requires
        units_not_negative(sales@),
        all_units(sales@) <= i64::MAX,
    ensures
        out == book_units(sales@, *book),
        0 <= out,
{
    let ghost f = units_for_book(*book);
    let mut total: i64 = 0;
    let mut i: usize = 0;
    while i < sales.len()
        invariant
            i <= sales.len(),
            f == units_for_book(*book),
            units_not_negative(sales@),
            all_units(sales@) <= i64::MAX,
            total == sum_by(sales@.take(i as int), f),
            0 <= total,
        decreases sales.len() - i,
    {
        proof {
            lemma_sum_step(sales@, i as int, f);
            lemma_units_within(sales@, i as int + 1, f);
        }
        if same_id(&sales[i].book_id, book) {
            total = total + sales[i].units;
        }
        i += 1;
    }
    proof {
        lemma_sum_all(sales@);
    }
    total
}

/// The number of reviews of `book` and the sum of their scores.
pub(crate) fn reviews_of_book(reviews: &Vec<Review>, book: &ObjectId) -> (out: (i64, i64))
    requires
        reviews.len() <= MAX_REVIEWS,
        scores_in_range(views(reviews@)),
    ensures
        out.0 == book_review_count(views(reviews@), *book),
        out.1 == book_score_total(views(reviews@), *book),
        0 <= out.0 <= reviews.len(),
        out.0 <= out.1 <= 5 * out.0,
{
    let ghost all = views(reviews@);
    let ghost one = one_for_book(*book);
    let ghost score = score_for_book(*book);
    let mut count: i64 = 0;
    let mut total: i64 = 0;
    let mut i: usize = 0;
    while i < reviews.len()
        invariant
            i <= reviews.len(),
            reviews.len() <= MAX_REVIEWS,
            all == views(reviews@),
            one == one_for_book(*book),
            score == score_for_book(*book),
            scores_in_range(views(reviews@)),
            count == sum_by(all.take(i as int), one),
            total == sum_by(all.take(i as int), score),
            0 <= count <= i,
            count <= total <= 5 * count,
        decreases reviews.len() - i,
    {
        proof {
            lemma_sum_step(all, i as int, one);
            lemma_sum_step(all, i as int, score);
            assert(all[i as int] == reviews@[i as int]@);
        }
        if same_id(&reviews[i].book_id, book) {
            count = count + 1;
            total = total + reviews[i].score as i64;
        }
        i += 1;
    }
    proof {
        lemma_sum_all(all);
    }
    (count, total)
}

/// For each sale, the author of its book.
pub(crate) fn sale_owners(books: &Vec<Book>, sales: &Vec<Sale>) -> (out: Vec<ObjectId>)
    requires
        sales_have_books(views(books@), sales@),
        book_ids_distinct(views(books@)),
    ensures
        out.len() == sales.len(),
        forall|k: int|
            0 <= k < sales.len() ==> book_author(views(books@), sales@[k].book_id) == Some(
                #[trigger] out@[k],
            ),
{
    let mut out: Vec<ObjectId> = Vec::new();
    let mut i: usize = 0;
    while i < sales.len()
        invariant
            i <= sales.len(),
            out.len() == i,
            sales_have_books(views(books@), sales@),
            book_ids_distinct(views(books@)),
            forall|k: int|
                0 <= k < i ==> book_author(views(books@), sales@[k].book_id) == Some(
                    #[trigger] out@[k],
                ),
        decreases sales.len() - i,
    {
        let owner = owner_of(books, &sales[i].book_id);
        out.push(owner);
        i += 1;
    }
    out
}

/// For each review, the author of its book.
pub(crate) fn review_owners(books: &Vec<Book>, reviews: &Vec<Review>) -> (out: Vec<ObjectId>)
    requires
        reviews_have_books(views(books@), views(reviews@)),
        book_ids_distinct(views(books@)),
    ensures
        out.len() == reviews.len(),
        forall|k: int|
            0 <= k < reviews.len() ==> book_author(views(books@), reviews@[k].book_id) == Some(
                #[trigger] out@[k],
            ),
{
    let mut out: Vec<ObjectId> = Vec::new();
    let mut i: usize = 0;
    while i < reviews.len()
        invariant
            i <= reviews.len(),
            out.len() == i,
            reviews_have_books(views(books@), views(reviews@)),
            book_ids_distinct(views(books@)),
            forall|k: int|
                0 <= k < i ==> book_author(views(books@), reviews@[k].book_id) == Some(
                    #[trigger] out@[k],
                ),
        decreases reviews.len() - i,
    {
        proof {
            assert(views(reviews@)[i as int] == reviews@[i as int]@);
        }
        let owner = owner_of(books, &reviews[i].book_id);
        out.push(owner);
        i += 1;
    }
    out
}

/// The units sold of all books of `author`, given the author of each
/// sale's book.
pub(crate) fn units_of_author(
    sales: &Vec<Sale>,
    owners: &Vec<ObjectId>,
    author: &ObjectId,
    Ghost(books): Ghost<Seq<BookView>>,
) -> (out: i64)
    requires
        owners.len() == sales.len(),
        forall|k: int|
            0 <= k < sales.len() ==> book_author(books, sales@[k].book_id) == Some(
                #[trigger] owners@[k],
            ),
        units_not_negative(sales@),
        all_units(sales@) <= i64::MAX,
    ensures
        out == sum_by(sales@, units_for_author(books, *author)),
        0 <= out,
{
    let ghost f = units_for_author(books, *author);
    let mut total: i64 = 0;
    let mut i: usize = 0;
    while i < sales.len()
        invariant
            i <= sales.len(),
            owners.len() == sales.len(),
            f == units_for_author(books, *author),
            forall|k: int|
                0 <= k < sales.len() ==> book_author(books, sales@[k].book_id) == Some(
                    #[trigger] owners@[k],
                ),
            units_not_negative(sales@),
            all_units(sales@) <= i64::MAX,
            total == sum_by(sales@.take(i as int), f),
            0 <= total,
        decreases sales.len() - i,
    {
        proof {
            lemma_sum_step(sales@, i as int, f);
            lemma_units_within(sales@, i as int + 1, f);
            assert(book_author(books, sales@[i as int].book_id) == Some(owners@[i as int]));
        }
        if same_id(&owners[i], author) {
            total = total + sales[i].units;
        }
        i += 1;
    }
    proof {
        lemma_sum_all(sales@);
    }
    total
}

/// The number of reviews of the books of `author` and the sum of their
/// scores, given the author of each review's book.
pub(crate) fn reviews_of_author(
    reviews: &Vec<Review>,
    owners: &Vec<ObjectId>,
    author: &ObjectId,
    Ghost(books): Ghost<Seq<BookView>>,
) -> (out: (i64, i64))
    requires
        owners.len() == reviews.len(),
        reviews.len() <= MAX_REVIEWS,
        forall|k: int|
            0 <= k < reviews.len() ==> book_author(books, reviews@[k].book_id) == Some(
                #[trigger] owners@[k],
            ),
        scores_in_range(views(reviews@)),
    ensures
        out.0 == sum_by(views(reviews@), one_for_author(books, *author)),
        out.1 == sum_by(views(reviews@), score_for_author(books, *author)),
        0 <= out.0 <= reviews.len(),
        out.0 <= out.1 <= 5 * out.0,
{
    let ghost all = views(reviews@);
    let ghost one = one_for_author(books, *author);
    let ghost score = score_for_author(books, *author);
    let mut count: i64 = 0;
    let mut total: i64 = 0;
    let mut i: usize = 0;
    while i < reviews.len()
        invariant
            i <= reviews.len(),
            owners.len() == reviews.len(),
            reviews.len() <= MAX_REVIEWS,
            all == views(reviews@),
            one == one_for_author(books, *author),
            score == score_for_author(books, *author),
            forall|k: int|
                0 <= k < reviews.len() ==> book_author(books, reviews@[k].book_id) == Some(
                    #[trigger] owners@[k],
                ),
            scores_in_range(views(reviews@)),
            count == sum_by(all.take(i as int), one),
            total == sum_by(all.take(i as int), score),
            0 <= count <= i,
            count <= total <= 5 * count,
        decreases reviews.len() - i,
    {
        proof {
            lemma_sum_step(all, i as int, one);
            lemma_sum_step(all, i as int, score);
            assert(all[i as int] == reviews@[i as int]@);
            assert(book_author(books, reviews@[i as int].book_id) == Some(owners@[i as int]));
        }
        if same_id(&owners[i], author) {
            count = count + 1;
            total = total + reviews[i].score as i64;
        }
        i += 1;
    }
    proof {
        lemma_sum_all(all);
    }
    (count, total)
}

/// The number of books of `author`.
pub(crate) fn books_of_author(books: &Vec<Book>, author: &ObjectId) -> (out: i64)
    requires
        books.len() <= i64::MAX,
    ensures
        out == author_book_count(views(books@), *author),
        0 <= out <= books.len(),
{
    let ghost all = views(books@);
    let ghost one = one_for_book_of(*author);
    let mut count: i64 = 0;
    let mut i: usize = 0;
    while i < books.len()
        invariant
            i <= books.len(),
            books.len() <= i64::MAX,
            all == views(books@),
            one == one_for_book_of(*author),
            count == sum_by(all.take(i as int), one),
            0 <= count <= i,
        decreases books.len() - i,
    {
        proof {
            lemma_sum_step(all, i as int, one);
            assert(all[i as int] == books@[i as int]@);
        }
        if same_id(&books[i].author_id, author) {
            count = count + 1;
        }
        i += 1;
    }
    proof {
        lemma_sum_all(all);
    }
    count
}

/// The author of the book `id`.
fn owner_of(books: &Vec<Book>, id: &ObjectId) -> (out: ObjectId)
    requires
        has_book(views(books@), *id),
        book_ids_distinct(views(books@)),
    ensures
        book_author(views(books@), *id) == Some(out),
{
    let found = find_book(books, id);
    match found {
        Some(at) => {
            proof {
                let all = views(books@);
                let p = book_position(all, *id);
                assert(all[p].id == *id);
                assert(all[at as int].id == *id);
                if p < at {
                    assert(all[p].id != all[at as int].id);
                } else if at < p {
                    assert(all[at as int].id != all[p].id);
                }
                assert(all[at as int].author_id == books@[at as int].author_id);
            }
            books[at].author_id
        },
        None => {
            proof {
                assert(false);
            }
            *id
        },
    }
}

} // verus!
