//! What each write does to the store, and why the rules of the store hold
//! after it.

use crate::dates::year_of_opt;
use crate::measures::{author_position, book_position, book_units, units_for_book};
use crate::models::{AuthorView, BookView, ReviewView, Sale};
use crate::object_id::ObjectId;
use crate::seqs::{
    lemma_filter_keeps, lemma_filter_member, lemma_filter_order, lemma_sum_filter_le,
    lemma_sum_push, lemma_sum_update,
};
use crate::store::{
    all_units, has_author, has_book, has_review, has_sale, one_sale_per_year, review_ids_distinct,
    sale_ids_distinct, units_of, MAX_BOOKS, MAX_REVIEWS, StoreView,
};
use vstd::prelude::*;

verus! {

/// An optional text that takes the place of an old one if it is given.
pub open spec fn or_old(given: Option<Seq<char>>, old: Option<Seq<char>>) -> Option<Seq<char>> {
    if given is Some {
        given
    } else {
        old
    }
}

/// The store with one more author.
pub open spec fn with_author(st: StoreView, a: AuthorView) -> StoreView {
    StoreView { authors: st.authors.push(a), ..st }
}

/// The rules hold after an author with a new identifier was added.
pub proof fn lemma_with_author(st: StoreView, a: AuthorView)
    requires
        st.wf(),
        !has_author(st.authors, a.id),
    ensures
        with_author(st, a).wf(),
{
    let next = with_author(st, a);
    assert forall|i: int| 0 <= i < next.books.len() implies has_author(
        next.authors,
        (#[trigger] next.books[i]).author_id,
    ) by {
        let k = author_position(st.authors, st.books[i].author_id);
        assert(next.authors[k] == st.authors[k]);
    }
}

/// An author with a new name, and with each optional text replaced where
/// one is given.
pub open spec fn author_changed(
    old: AuthorView,
    name: Seq<char>,
    country: Option<Seq<char>>,
    description: Option<Seq<char>>,
    date_of_birth: Option<Seq<char>>,
) -> AuthorView {
    AuthorView {
        name: name,
        country: or_old(country, old.country),
        description: or_old(description, old.description),
        date_of_birth: or_old(date_of_birth, old.date_of_birth),
        ..old
    }
}

/// The store with the author at position `at` replaced by `a`.
pub open spec fn with_author_at(st: StoreView, at: int, a: AuthorView) -> StoreView {
    StoreView { authors: st.authors.update(at, a), ..st }
}

/// The rules hold after an author was replaced by one with the same
/// identifier.
pub proof fn lemma_with_author_at(st: StoreView, at: int, a: AuthorView)
    requires
        st.wf(),
        0 <= at < st.authors.len(),
        a.id == st.authors[at].id,
    ensures
        with_author_at(st, at, a).wf(),
{
    let next = with_author_at(st, at, a);
    assert forall|i: int, j: int| 0 <= i < j < next.authors.len() implies (
    #[trigger] next.authors[i]).id != (#[trigger] next.authors[j]).id by {
        assert(next.authors[i].id == st.authors[i].id);
        assert(next.authors[j].id == st.authors[j].id);
    }
    assert forall|i: int| 0 <= i < next.books.len() implies has_author(
        next.authors,
        (#[trigger] next.books[i]).author_id,
    ) by {
        let k = author_position(st.authors, st.books[i].author_id);
        assert(next.authors[k].id == st.authors[k].id);
    }
}

/// The store without the author at position `at`.
pub open spec fn without_author_at(st: StoreView, at: int) -> StoreView {
    StoreView { authors: st.authors.remove(at), ..st }
}

/// The rules hold after an author without books went.
pub proof fn lemma_without_author_at(st: StoreView, at: int)
    requires
        st.wf(),
        0 <= at < st.authors.len(),
        forall|i: int| 0 <= i < st.books.len() ==> (#[trigger] st.books[i]).author_id
            != st.authors[at].id,
    ensures
        without_author_at(st, at).wf(),
{
    let next = without_author_at(st, at);
    assert forall|i: int, j: int| 0 <= i < j < next.authors.len() implies (
    #[trigger] next.authors[i]).id != (#[trigger] next.authors[j]).id by {
        let a = if i < at { i } else { i + 1 };
        let b = if j < at { j } else { j + 1 };
        assert(next.authors[i] == st.authors[a]);
        assert(next.authors[j] == st.authors[b]);
    }
    assert forall|i: int| 0 <= i < next.books.len() implies has_author(
        next.authors,
        (#[trigger] next.books[i]).author_id,
    ) by {
        let k = author_position(st.authors, st.books[i].author_id);
        assert(st.authors[k].id == st.books[i].author_id);
        let moved = if k < at { k } else { k - 1 };
        assert(next.authors[moved] == st.authors[k]);
    }
}

/// The store with one more book.
pub open spec fn with_book(st: StoreView, b: BookView) -> StoreView {
    StoreView { books: st.books.push(b), ..st }
}

/// The rules hold after a book that the store takes was added.
pub proof fn lemma_with_book(st: StoreView, b: BookView)
    requires
        st.wf(),
        has_author(st.authors, b.author_id),
        !has_book(st.books, b.id),
        b.publication_date is Some ==> year_of_opt(b.publication_date) is Some,
        st.books.len() < MAX_BOOKS,
    ensures
        with_book(st, b).wf(),
{
    let next = with_book(st, b);
    assert forall|i: int| 0 <= i < next.reviews.len() implies has_book(
        next.books,
        (#[trigger] next.reviews[i]).book_id,
    ) by {
        let k = book_position(st.books, st.reviews[i].book_id);
        assert(next.books[k] == st.books[k]);
    }
    assert forall|i: int| 0 <= i < next.sales.len() implies has_book(
        next.books,
        (#[trigger] next.sales[i]).book_id,
    ) by {
        let k = book_position(st.books, st.sales[i].book_id);
        assert(next.books[k] == st.books[k]);
    }
}

/// A book with a new title and author, and with the summary and the
/// publication date replaced where one is given.
pub open spec fn book_changed(
    old: BookView,
    title: Seq<char>,
    author_id: ObjectId,
    summary: Option<Seq<char>>,
    publication_date: Option<Seq<char>>,
) -> BookView {
    BookView {
        title: title,
        author_id: author_id,
        summary: or_old(summary, old.summary),
        publication_date: or_old(publication_date, old.publication_date),
        ..old
    }
}

/// The store with the book at position `at` replaced by `b`.
pub open spec fn with_book_at(st: StoreView, at: int, b: BookView) -> StoreView {
    StoreView { books: st.books.update(at, b), ..st }
}

/// The rules hold after a book was replaced by one with the same
/// identifier, an author of the store and a date with a year.
pub proof fn lemma_with_book_at(st: StoreView, at: int, b: BookView)
    requires
        st.wf(),
        0 <= at < st.books.len(),
        b.id == st.books[at].id,
        has_author(st.authors, b.author_id),
        b.publication_date is Some ==> year_of_opt(b.publication_date) is Some,
    ensures
        with_book_at(st, at, b).wf(),
{
    let next = with_book_at(st, at, b);
    assert forall|i: int, j: int| 0 <= i < j < next.books.len() implies (
    #[trigger] next.books[i]).id != (#[trigger] next.books[j]).id by {
        assert(next.books[i].id == st.books[i].id);
        assert(next.books[j].id == st.books[j].id);
    }
    assert forall|i: int| 0 <= i < next.books.len() implies has_author(
        next.authors,
        (#[trigger] next.books[i]).author_id,
    ) by {
        if i != at {
            assert(next.books[i] == st.books[i]);
        }
    }
    assert forall|i: int| 0 <= i < next.reviews.len() implies has_book(
        next.books,
        (#[trigger] next.reviews[i]).book_id,
    ) by {
        let k = book_position(st.books, st.reviews[i].book_id);
        assert(next.books[k].id == st.books[k].id);
    }
    assert forall|i: int| 0 <= i < next.sales.len() implies has_book(
        next.books,
        (#[trigger] next.sales[i]).book_id,
    ) by {
        let k = book_position(st.books, st.sales[i].book_id);
        assert(next.books[k].id == st.books[k].id);
    }
    assert forall|i: int|
        0 <= i < next.books.len() && (#[trigger] next.books[i]).publication_date is Some
            implies year_of_opt(
        next.books[i].publication_date,
    ) is Some by {
        if i != at {
            assert(next.books[i] == st.books[i]);
        }
    }
}

/// The test that keeps every book but `id`.
pub open spec fn book_is_not(id: ObjectId) -> spec_fn(BookView) -> bool {
    |b: BookView| b.id != id
}

/// The test that keeps every review but those of the book `id`.
pub open spec fn review_not_of(id: ObjectId) -> spec_fn(ReviewView) -> bool {
    |r: ReviewView| r.book_id != id
}

/// The test that keeps every sale but those of the book `id`.
pub open spec fn sale_not_of(id: ObjectId) -> spec_fn(Sale) -> bool {
    |s: Sale| s.book_id != id
}

/// The store without the book `id`, its reviews and its sales.
pub open spec fn without_book(st: StoreView, id: ObjectId) -> StoreView {
    StoreView {
        authors: st.authors,
        books: st.books.filter(book_is_not(id)),
        reviews: st.reviews.filter(review_not_of(id)),
        sales: st.sales.filter(sale_not_of(id)),
    }
}

/// The rules hold after a book went with its reviews and its sales, and
/// the book is gone.
pub proof fn lemma_without_book(st: StoreView, id: ObjectId)
    requires
        st.wf(),
    ensures
        without_book(st, id).wf(),
        !has_book(without_book(st, id).books, id),
{
    let next = without_book(st, id);
    let kb = book_is_not(id);
    let kr = review_not_of(id);
    let ks = sale_not_of(id);
    assert forall|i: int, j: int| 0 <= i < j < next.books.len() implies (
    #[trigger] next.books[i]).id != (#[trigger] next.books[j]).id by {
        lemma_filter_order(st.books, kb, i, j);
    }
    assert forall|i: int, j: int| 0 <= i < j < next.reviews.len() implies (
    #[trigger] next.reviews[i]).id != (#[trigger] next.reviews[j]).id by {
        lemma_filter_order(st.reviews, kr, i, j);
    }
    assert forall|i: int, j: int| 0 <= i < j < next.sales.len() implies (
    #[trigger] next.sales[i]).id != (#[trigger] next.sales[j]).id by {
        lemma_filter_order(st.sales, ks, i, j);
    }
    assert forall|i: int, j: int| 0 <= i < j < next.sales.len() implies !((
    #[trigger] next.sales[i]).book_id == (#[trigger] next.sales[j]).book_id && next.sales[i].year
        == next.sales[j].year) by {
        lemma_filter_order(st.sales, ks, i, j);
    }
    assert forall|i: int| 0 <= i < next.books.len() implies has_author(
        next.authors,
        (#[trigger] next.books[i]).author_id,
    ) by {
        lemma_filter_member(st.books, kb, i);
    }
    assert forall|i: int| 0 <= i < next.reviews.len() implies has_book(
        next.books,
        (#[trigger] next.reviews[i]).book_id,
    ) by {
        lemma_filter_member(st.reviews, kr, i);
        let a = choose|a: int| 0 <= a < st.reviews.len() && #[trigger] st.reviews[a]
            == next.reviews[i];
        let k = book_position(st.books, st.reviews[a].book_id);
        lemma_filter_keeps(st.books, kb, k);
    }
    assert forall|i: int| 0 <= i < next.sales.len() implies has_book(
        next.books,
        (#[trigger] next.sales[i]).book_id,
    ) by {
        lemma_filter_member(st.sales, ks, i);
        let a = choose|a: int| 0 <= a < st.sales.len() && #[trigger] st.sales[a] == next.sales[i];
        let k = book_position(st.books, st.sales[a].book_id);
        lemma_filter_keeps(st.books, kb, k);
    }
    assert forall|i: int| 0 <= i < next.reviews.len() implies 1 <= (
    #[trigger] next.reviews[i]).score <= 5 && next.reviews[i].up_votes >= 0 by {
        lemma_filter_member(st.reviews, kr, i);
    }
    assert forall|i: int| 0 <= i < next.sales.len() implies (#[trigger] next.sales[i]).units
        >= 0 by {
        lemma_filter_member(st.sales, ks, i);
    }
    assert forall|i: int|
        0 <= i < next.books.len() && (#[trigger] next.books[i]).publication_date is Some
            implies year_of_opt(
        next.books[i].publication_date,
    ) is Some by {
        lemma_filter_member(st.books, kb, i);
    }
    st.books.lemma_filter_len(kb);
    st.reviews.lemma_filter_len(kr);
    lemma_sum_filter_le(st.sales, ks, |s: Sale| units_of(s));
    assert forall|i: int| 0 <= i < next.books.len() implies (#[trigger] next.books[i]).id != id by {
        lemma_filter_member(st.books, kb, i);
    }
}

/// The test that keeps the books of `author`.
pub open spec fn book_by(author: ObjectId) -> spec_fn(BookView) -> bool {
    |b: BookView| b.author_id == author
}

/// The identifiers of the books of `author`, in the order of the store.
pub open spec fn books_of(books: Seq<BookView>, author: ObjectId) -> Seq<ObjectId> {
    books.filter(book_by(author)).map_values(|b: BookView| b.id)
}

/// The store without the books `ids`, their reviews and their sales,
/// removed one book after the other.
pub open spec fn without_books(st: StoreView, ids: Seq<ObjectId>) -> StoreView
    decreases ids.len(),
{
    if ids.len() == 0 {
        st
    } else {
        without_books(without_book(st, ids[0]), ids.drop_first())
    }
}

/// The store without the author `id`: first the author's books go, each
/// with its reviews and sales, then the author.
pub open spec fn without_author(st: StoreView, id: ObjectId) -> StoreView {
    let cleared = without_books(st, books_of(st.books, id));
    if has_author(cleared.authors, id) {
        without_author_at(cleared, author_position(cleared.authors, id))
    } else {
        cleared
    }
}

/// Every book of `author` is among `books_of`.
pub proof fn lemma_books_of_holds(books: Seq<BookView>, author: ObjectId, i: int)
    requires
        0 <= i < books.len(),
        books[i].author_id == author,
    ensures
        books_of(books, author).contains(books[i].id),
{
    lemma_filter_keeps(books, book_by(author), i);
    let kept = books.filter(book_by(author));
    let k = choose|k: int| 0 <= k < kept.len() && #[trigger] kept[k] == books[i];
    assert(books_of(books, author)[k] == books[i].id);
}

/// The store with one more review.
pub open spec fn with_review(st: StoreView, r: ReviewView) -> StoreView {
    StoreView { reviews: st.reviews.push(r), ..st }
}

/// The rules hold after a review that the store takes was added.
pub proof fn lemma_with_review(st: StoreView, r: ReviewView)
    requires
        st.wf(),
        has_book(st.books, r.book_id),
        !has_review(st.reviews, r.id),
        1 <= r.score <= 5,
        r.up_votes >= 0,
        st.reviews.len() < MAX_REVIEWS,
    ensures
        with_review(st, r).wf(),
{
}

/// The store with the review at position `at` replaced by `r`.
pub open spec fn with_review_at(st: StoreView, at: int, r: ReviewView) -> StoreView {
    StoreView { reviews: st.reviews.update(at, r), ..st }
}

/// The rules hold after a review was replaced by one with the same
/// identifier, a book of the store and values in range.
pub proof fn lemma_with_review_at(st: StoreView, at: int, r: ReviewView)
    requires
        st.wf(),
        0 <= at < st.reviews.len(),
        r.id == st.reviews[at].id,
        has_book(st.books, r.book_id),
        1 <= r.score <= 5,
        r.up_votes >= 0,
    ensures
        with_review_at(st, at, r).wf(),
{
    let next = with_review_at(st, at, r);
    assert forall|i: int, j: int| 0 <= i < j < next.reviews.len() implies (
    #[trigger] next.reviews[i]).id != (#[trigger] next.reviews[j]).id by {
        assert(next.reviews[i].id == st.reviews[i].id);
        assert(next.reviews[j].id == st.reviews[j].id);
    }
    assert forall|i: int| 0 <= i < next.reviews.len() implies has_book(
        next.books,
        (#[trigger] next.reviews[i]).book_id,
    ) by {
        if i != at {
            assert(next.reviews[i] == st.reviews[i]);
        }
    }
    assert forall|i: int| 0 <= i < next.reviews.len() implies 1 <= (
    #[trigger] next.reviews[i]).score <= 5 && next.reviews[i].up_votes >= 0 by {
        if i != at {
            assert(next.reviews[i] == st.reviews[i]);
        }
    }
}

/// The store without the review at position `at`.
pub open spec fn without_review_at(st: StoreView, at: int) -> StoreView {
    StoreView { reviews: st.reviews.remove(at), ..st }
}

/// The rules hold after a review went.
pub proof fn lemma_without_review_at(st: StoreView, at: int)
    requires
        st.wf(),
        0 <= at < st.reviews.len(),
    ensures
        without_review_at(st, at).wf(),
{
    let next = without_review_at(st, at);
    assert forall|i: int| 0 <= i < next.reviews.len() implies next.reviews[i] == st.reviews[if i
        < at {
        i
    } else {
        i + 1
    }] by {}
    assert forall|i: int, j: int| 0 <= i < j < next.reviews.len() implies (
    #[trigger] next.reviews[i]).id != (#[trigger] next.reviews[j]).id by {
        let a = if i < at { i } else { i + 1 };
        let b = if j < at { j } else { j + 1 };
        assert(st.reviews[a].id != st.reviews[b].id);
    }
    assert forall|i: int| 0 <= i < next.reviews.len() implies has_book(
        next.books,
        (#[trigger] next.reviews[i]).book_id,
    ) by {
        let a = if i < at { i } else { i + 1 };
        assert(has_book(st.books, st.reviews[a].book_id));
    }
    assert forall|i: int| 0 <= i < next.reviews.len() implies 1 <= (
    #[trigger] next.reviews[i]).score <= 5 && next.reviews[i].up_votes >= 0 by {
        let a = if i < at { i } else { i + 1 };
        assert(1 <= st.reviews[a].score <= 5);
    }
}

/// Whether `sales` holds a sale of `book` for `year`.
pub open spec fn has_sale_for(sales: Seq<Sale>, book: ObjectId, year: i32) -> bool {
    exists|i: int|
        0 <= i < sales.len() && (#[trigger] sales[i]).book_id == book && sales[i].year == year
}

/// The store with one more sale.
pub open spec fn with_sale(st: StoreView, s: Sale) -> StoreView {
    StoreView { sales: st.sales.push(s), ..st }
}

/// The rules hold after a sale that the store takes was added, and the
/// units of all sales grew by its units.
pub proof fn lemma_with_sale(st: StoreView, s: Sale)
    requires
        st.wf(),
        has_book(st.books, s.book_id),
        !has_sale(st.sales, s.id),
        !has_sale_for(st.sales, s.book_id, s.year),
        s.units >= 0,
        all_units(st.sales) + s.units <= i64::MAX,
    ensures
        with_sale(st, s).wf(),
        all_units(with_sale(st, s).sales) == all_units(st.sales) + s.units,
{
    lemma_sum_push(st.sales, s, |x: Sale| units_of(x));
}

/// The store with the sale at position `at` replaced by `s`.
pub open spec fn with_sale_at(st: StoreView, at: int, s: Sale) -> StoreView {
    StoreView { sales: st.sales.update(at, s), ..st }
}

/// The rules hold after a sale was replaced by one that meets no other
/// sale of its book and year, and the units of all sales changed by the
/// difference.
pub proof fn lemma_with_sale_at(st: StoreView, at: int, s: Sale)
    requires
        st.wf(),
        0 <= at < st.sales.len(),
        s.id == st.sales[at].id,
        has_book(st.books, s.book_id),
        forall|i: int|
            0 <= i < st.sales.len() && i != at ==> !((#[trigger] st.sales[i]).book_id == s.book_id
                && st.sales[i].year == s.year),
        s.units >= 0,
        all_units(st.sales) - st.sales[at].units + s.units <= i64::MAX,
    ensures
        with_sale_at(st, at, s).wf(),
        all_units(with_sale_at(st, at, s).sales) == all_units(st.sales) - st.sales[at].units
            + s.units,
{
    let next = with_sale_at(st, at, s);
    lemma_sum_update(st.sales, at, s, |x: Sale| units_of(x));
    assert forall|i: int, j: int| 0 <= i < j < next.sales.len() implies (
    #[trigger] next.sales[i]).id != (#[trigger] next.sales[j]).id by {
        assert(next.sales[i].id == st.sales[i].id);
        assert(next.sales[j].id == st.sales[j].id);
    }
    assert forall|i: int, j: int| 0 <= i < j < next.sales.len() implies !((
    #[trigger] next.sales[i]).book_id == (#[trigger] next.sales[j]).book_id && next.sales[i].year
        == next.sales[j].year) by {
        if i != at && j != at {
            assert(next.sales[i] == st.sales[i]);
            assert(next.sales[j] == st.sales[j]);
        } else if i == at {
            assert(next.sales[j] == st.sales[j]);
        } else {
            assert(next.sales[i] == st.sales[i]);
        }
    }
    assert forall|i: int| 0 <= i < next.sales.len() implies has_book(
        next.books,
        (#[trigger] next.sales[i]).book_id,
    ) by {
        if i != at {
            assert(next.sales[i] == st.sales[i]);
        }
    }
    assert forall|i: int| 0 <= i < next.sales.len() implies (#[trigger] next.sales[i]).units
        >= 0 by {
        if i != at {
            assert(next.sales[i] == st.sales[i]);
        }
    }
}

/// The store without the sale at position `at`.
pub open spec fn without_sale_at(st: StoreView, at: int) -> StoreView {
    StoreView { sales: st.sales.remove(at), ..st }
}

/// The rules hold after a sale went, and the units of all sales fell by
/// its units.
pub proof fn lemma_without_sale_at(st: StoreView, at: int)
    requires
        st.wf(),
        0 <= at < st.sales.len(),
    ensures
        without_sale_at(st, at).wf(),
        all_units(without_sale_at(st, at).sales) == all_units(st.sales) - st.sales[at].units,
{
    let next = without_sale_at(st, at);
    crate::seqs::lemma_sum_remove(st.sales, at, |x: Sale| units_of(x));
    assert(st.sales[at].units >= 0);
    assert forall|i: int| 0 <= i < next.sales.len() implies next.sales[i] == st.sales[if i < at {
        i
    } else {
        i + 1
    }] by {}
    assert forall|i: int, j: int| 0 <= i < j < next.sales.len() implies (
    #[trigger] next.sales[i]).id != (#[trigger] next.sales[j]).id by {
        let a = if i < at { i } else { i + 1 };
        let b = if j < at { j } else { j + 1 };
        assert(st.sales[a].id != st.sales[b].id);
    }
    assert forall|i: int, j: int| 0 <= i < j < next.sales.len() implies !((
    #[trigger] next.sales[i]).book_id == (#[trigger] next.sales[j]).book_id && next.sales[i].year
        == next.sales[j].year) by {
        let a = if i < at { i } else { i + 1 };
        let b = if j < at { j } else { j + 1 };
        assert(!(st.sales[a].book_id == st.sales[b].book_id && st.sales[a].year
            == st.sales[b].year));
    }
    assert forall|i: int| 0 <= i < next.sales.len() implies has_book(
        next.books,
        (#[trigger] next.sales[i]).book_id,
    ) by {
        let a = if i < at { i } else { i + 1 };
        assert(has_book(st.books, st.sales[a].book_id));
    }
    assert forall|i: int| 0 <= i < next.sales.len() implies (#[trigger] next.sales[i]).units
        >= 0 by {
        let a = if i < at { i } else { i + 1 };
        assert(st.sales[a].units >= 0);
    }
}

/// The book at position `at` with `total` written as its total sales.
pub open spec fn with_total_at(st: StoreView, at: int, total: i64) -> StoreView {
    with_book_at(st, at, BookView { total_sales: Some(total), ..st.books[at] })
}

/// The rules hold whatever total is written to a book.
pub proof fn lemma_with_total_at(st: StoreView, at: int, total: i64)
    requires
        st.wf(),
        0 <= at < st.books.len(),
    ensures
        with_total_at(st, at, total).wf(),
{
    lemma_with_book_at(st, at, BookView { total_sales: Some(total), ..st.books[at] });
}

/// The position of the review `id` in `reviews`.
pub open spec fn review_position(reviews: Seq<ReviewView>, id: ObjectId) -> int {
    choose|i: int| 0 <= i < reviews.len() && (#[trigger] reviews[i]).id == id
}

/// The position of the sale `id` in `sales`.
pub open spec fn sale_position(sales: Seq<Sale>, id: ObjectId) -> int {
    choose|i: int| 0 <= i < sales.len() && (#[trigger] sales[i]).id == id
}

/// The position of the sale of `book` for `year` in `sales`.
pub open spec fn sale_slot(sales: Seq<Sale>, book: ObjectId, year: i32) -> int {
    choose|i: int|
        0 <= i < sales.len() && (#[trigger] sales[i]).book_id == book && sales[i].year == year
}

/// A review is found at one position only.
pub proof fn lemma_found_review(reviews: Seq<ReviewView>, at: int, id: ObjectId)
    requires
        review_ids_distinct(reviews),
        0 <= at < reviews.len(),
        reviews[at].id == id,
    ensures
        has_review(reviews, id),
        review_position(reviews, id) == at,
{
    let p = review_position(reviews, id);
    if p < at {
        assert(reviews[p].id != reviews[at].id);
    } else if at < p {
        assert(reviews[at].id != reviews[p].id);
    }
}

/// A sale is found at one position only.
pub proof fn lemma_found_sale(sales: Seq<Sale>, at: int, id: ObjectId)
    requires
        sale_ids_distinct(sales),
        0 <= at < sales.len(),
        sales[at].id == id,
    ensures
        has_sale(sales, id),
        sale_position(sales, id) == at,
{
    let p = sale_position(sales, id);
    if p < at {
        assert(sales[p].id != sales[at].id);
    } else if at < p {
        assert(sales[at].id != sales[p].id);
    }
}

/// The sale of a book for a year is found at one position only.
pub proof fn lemma_found_slot(sales: Seq<Sale>, at: int, book: ObjectId, year: i32)
    requires
        one_sale_per_year(sales),
        0 <= at < sales.len(),
        sales[at].book_id == book,
        sales[at].year == year,
    ensures
        has_sale_for(sales, book, year),
        sale_slot(sales, book, year) == at,
{
    let p = sale_slot(sales, book, year);
    if p < at {
        assert(!(sales[p].book_id == sales[at].book_id && sales[p].year == sales[at].year));
    } else if at < p {
        assert(!(sales[at].book_id == sales[p].book_id && sales[at].year == sales[p].year));
    }
}

/// Why the store does not take `r` as a new review, if it does not.
pub open spec fn review_refusal(st: StoreView, r: ReviewView) -> Option<crate::store::StoreError> {
    if !has_book(st.books, r.book_id) {
        Some(crate::store::StoreError::UnknownBook)
    } else if has_review(st.reviews, r.id) {
        Some(crate::store::StoreError::DuplicateId)
    } else if !(1 <= r.score <= 5 && r.up_votes >= 0) {
        Some(crate::store::StoreError::InvalidReview)
    } else if st.reviews.len() >= MAX_REVIEWS {
        Some(crate::store::StoreError::Full)
    } else {
        None
    }
}

/// Why the store does not take a change of a review, if it does not.
pub open spec fn review_change_refusal(
    st: StoreView,
    book_id: ObjectId,
    score: i32,
    up_votes: i64,
) -> Option<
    crate::store::StoreError,
> {
    if !has_book(st.books, book_id) {
        Some(crate::store::StoreError::UnknownBook)
    } else if !(1 <= score <= 5 && up_votes >= 0) {
        Some(crate::store::StoreError::InvalidReview)
    } else {
        None
    }
}

/// The store with the total sales of `book` written anew: the sum of the
/// units of its sales.
pub open spec fn recomputed(st: StoreView, book: ObjectId) -> StoreView {
    if has_book(st.books, book) {
        with_total_at(st, book_position(st.books, book), book_units(st.sales, book) as i64)
    } else {
        st
    }
}

/// The units of a book lie between nothing and the units of all sales.
pub proof fn lemma_book_units_fit(st: StoreView, book: ObjectId)
    requires
        st.wf(),
    ensures
        0 <= book_units(st.sales, book) <= all_units(st.sales),
{
    crate::measures::lemma_units_within(st.sales, st.sales.len() as int, units_for_book(book));
    crate::seqs::lemma_sum_all(st.sales);
}

/// After the total of a book is written anew, it is the sum of the units
/// of the sales of that book.
pub proof fn lemma_recomputed_total(st: StoreView, book: ObjectId)
    requires
        st.wf(),
        has_book(st.books, book),
    ensures
        recomputed(st, book).wf(),
        recomputed(st, book).sales == st.sales,
        recomputed(st, book).books[book_position(st.books, book)].total_sales == Some(
            book_units(st.sales, book) as i64,
        ),
        recomputed(st, book).books[book_position(st.books, book)].total_sales->0 == book_units(
            recomputed(st, book).sales,
            book,
        ),
{
    lemma_book_units_fit(st, book);
    lemma_with_total_at(st, book_position(st.books, book), book_units(st.sales, book) as i64);
}

/// A new sale adds its units to the units of its book, and when it goes
/// again the units of the book are what they were.
pub proof fn lemma_units_with_sale(sales: Seq<Sale>, s: Sale)
    ensures
        book_units(sales.push(s), s.book_id) == book_units(sales, s.book_id) + s.units,
        book_units(sales.push(s).remove(sales.len() as int), s.book_id) == book_units(
            sales,
            s.book_id,
        ),
{
    lemma_sum_push(sales, s, units_for_book(s.book_id));
    assert(sales.push(s).remove(sales.len() as int) =~= sales);
}

/// A sale that goes takes its units off the units of its book.
pub proof fn lemma_units_without_sale(sales: Seq<Sale>, at: int)
    requires
        0 <= at < sales.len(),
    ensures
        book_units(sales.remove(at), sales[at].book_id) == book_units(sales, sales[at].book_id)
            - sales[at].units,
{
    crate::seqs::lemma_sum_remove(sales, at, units_for_book(sales[at].book_id));
}

/// Why the store does not record units for a book and a year, if it does
/// not. `id` is the identifier that a new sale would get.
pub open spec fn sale_refusal(
    st: StoreView,
    id: ObjectId,
    book: ObjectId,
    year: i32,
    units: i64,
) -> Option<
    crate::store::StoreError,
> {
    if !has_book(st.books, book) {
        Some(crate::store::StoreError::UnknownBook)
    } else if units < 0 {
        Some(crate::store::StoreError::NegativeUnits)
    } else if has_sale_for(st.sales, book, year) {
        if all_units(st.sales) - st.sales[sale_slot(st.sales, book, year)].units + units
            > i64::MAX {
            Some(crate::store::StoreError::TooManyUnits)
        } else {
            None
        }
    } else if has_sale(st.sales, id) {
        Some(crate::store::StoreError::DuplicateId)
    } else if all_units(st.sales) + units > i64::MAX {
        Some(crate::store::StoreError::TooManyUnits)
    } else {
        None
    }
}

/// The store after units were recorded for a book and a year: the sale of
/// that book for that year has the new units if there was one, else there
/// is a new sale; and the total of the book is written anew.
pub open spec fn sale_recorded(
    st: StoreView,
    id: ObjectId,
    book: ObjectId,
    year: i32,
    units: i64,
) -> StoreView {
    if has_sale_for(st.sales, book, year) {
        let at = sale_slot(st.sales, book, year);
        recomputed(with_sale_at(st, at, Sale { units: units, ..st.sales[at] }), book)
    } else {
        recomputed(with_sale(st, Sale { id: id, book_id: book, year: year, units: units }), book)
    }
}

/// Whether a change of the sale at `at` to `book` and `year` meets
/// another sale of that book for that year.
pub open spec fn sale_merges(st: StoreView, at: int, book: ObjectId, year: i32) -> bool {
    (st.sales[at].book_id != book || st.sales[at].year != year) && has_sale_for(
        st.sales,
        book,
        year,
    )
}

/// The units of all sales after the sale at `at` was changed to `book`,
/// `year` and `units`.
pub open spec fn units_after_change(
    st: StoreView,
    at: int,
    book: ObjectId,
    year: i32,
    units: i64,
) -> int {
    if sale_merges(st, at, book, year) {
        all_units(st.sales) - st.sales[at].units - st.sales[sale_slot(st.sales, book, year)].units
            + units
    } else {
        all_units(st.sales) - st.sales[at].units + units
    }
}

/// Why the store does not take a change of the sale `id`, if it does not.
pub open spec fn sale_change_refusal(
    st: StoreView,
    id: ObjectId,
    book: ObjectId,
    year: i32,
    units: i64,
) -> Option<
    crate::store::StoreError,
> {
    if !has_book(st.books, book) {
        Some(crate::store::StoreError::UnknownBook)
    } else if units < 0 {
        Some(crate::store::StoreError::NegativeUnits)
    } else if has_sale(st.sales, id) && units_after_change(
        st,
        sale_position(st.sales, id),
        book,
        year,
        units,
    ) > i64::MAX {
        Some(crate::store::StoreError::TooManyUnits)
    } else {
        None
    }
}

/// The sales after the sale at `at` was changed to `book`, `year` and
/// `units`: where that meets another sale of the book for the year, that
/// other sale takes the units and the changed one goes; else the sale is
/// changed in its place.
pub open spec fn sales_changed(
    st: StoreView,
    at: int,
    book: ObjectId,
    year: i32,
    units: i64,
) -> StoreView {
    if sale_merges(st, at, book, year) {
        let removed = without_sale_at(st, at);
        let slot = sale_slot(removed.sales, book, year);
        with_sale_at(removed, slot, Sale { units: units, ..removed.sales[slot] })
    } else {
        with_sale_at(
            st,
            at,
            Sale { id: st.sales[at].id, book_id: book, year: year, units: units },
        )
    }
}

/// The store after the sale `id` was changed: the sales as `sales_changed`
/// says, and the totals of the book that the sale had and of the book that
/// it has written anew. Where the store does not hold the sale, only the
/// total of `book` is written anew.
pub open spec fn sale_changed(
    st: StoreView,
    id: ObjectId,
    book: ObjectId,
    year: i32,
    units: i64,
) -> StoreView {
    if has_sale(st.sales, id) {
        let at = sale_position(st.sales, id);
        recomputed(recomputed(sales_changed(st, at, book, year, units), st.sales[at].book_id), book)
    } else {
        recomputed(st, book)
    }
}

/// The store after the sale at `at` went: the total of its book is written
/// anew.
pub open spec fn sale_deleted(st: StoreView, at: int) -> StoreView {
    recomputed(without_sale_at(st, at), st.sales[at].book_id)
}

/// A write of a sale leaves the authors and the reviews as they were.
pub proof fn lemma_sale_writes_keep_reviews(
    st: StoreView,
    id: ObjectId,
    book: ObjectId,
    year: i32,
    units: i64,
    at: int,
)
    ensures
        recomputed(st, book).reviews == st.reviews,
        recomputed(st, book).authors == st.authors,
        sale_recorded(st, id, book, year, units).reviews == st.reviews,
        sale_recorded(st, id, book, year, units).authors == st.authors,
        sale_changed(st, id, book, year, units).reviews == st.reviews,
        sale_changed(st, id, book, year, units).authors == st.authors,
        sale_deleted(st, at).reviews == st.reviews,
        sale_deleted(st, at).authors == st.authors,
{
}

/// After a sale went, the total of its book is what the book sold before
/// less the units of that sale, which is the sum of the units of the sales
/// that are left of the book.
pub proof fn lemma_total_after_sale_went(st: StoreView, at: int)
    requires
        st.wf(),
        0 <= at < st.sales.len(),
    ensures
        ({
            let book = st.sales[at].book_id;
            let back = sale_deleted(st, at);
            let slot = book_position(st.books, book);
            &&& has_book(st.books, book)
            &&& back.wf()
            &&& back.sales == st.sales.remove(at)
            &&& back.books[slot].id == book
            &&& back.books[slot].total_sales == Some(
                (book_units(st.sales, book) - st.sales[at].units) as i64,
            )
            &&& back.books[slot].total_sales->0 == book_units(back.sales, book)
        }),
{
    let book = st.sales[at].book_id;
    let left = without_sale_at(st, at);
    lemma_without_sale_at(st, at);
    assert(has_book(st.books, book));
    lemma_recomputed_total(left, book);
    lemma_units_without_sale(st.sales, at);
    lemma_book_units_fit(left, book);
}

/// The total of a book follows its sales: after the first sale of a book
/// for a year is recorded, the total is what the book sold before plus the
/// units of that sale; and after that sale went again, the total is what
/// the book sold before.
pub proof fn lemma_total_follows_sales(
    st: StoreView,
    id: ObjectId,
    book: ObjectId,
    year: i32,
    units: i64,
)
    requires
        st.wf(),
        sale_refusal(st, id, book, year, units) is None,
        !has_sale_for(st.sales, book, year),
    ensures
        ({
            let at = book_position(st.books, book);
            let sold = sale_recorded(st, id, book, year, units);
            let back = sale_deleted(sold, st.sales.len() as int);
            &&& sold.wf()
            &&& sold.sales == st.sales.push(
                Sale { id: id, book_id: book, year: year, units: units },
            )
            &&& sold.books[at].total_sales == Some((book_units(st.sales, book) + units) as i64)
            &&& sold.books[at].total_sales->0 == book_units(sold.sales, book)
            &&& back.wf()
            &&& back.sales == st.sales
            &&& back.books[at].total_sales == Some(book_units(st.sales, book) as i64)
        }),
{
    let at = book_position(st.books, book);
    let s = Sale { id: id, book_id: book, year: year, units: units };
    let added = with_sale(st, s);
    lemma_with_sale(st, s);
    lemma_recomputed_total(added, book);
    lemma_units_with_sale(st.sales, s);
    lemma_sum_push(st.sales, s, units_for_book(book));
    lemma_book_units_fit(added, book);
    let sold = recomputed(added, book);
    assert(sold.books[at].id == book);
    assert(has_book(sold.books, book));
    let p = book_position(sold.books, book);
    if p < at {
        assert(sold.books[p].id != sold.books[at].id);
    } else if at < p {
        assert(sold.books[at].id != sold.books[p].id);
    }
    let last = st.sales.len() as int;
    assert(sold.sales[last] == s);
    lemma_without_sale_at(sold, last);
    let gone = without_sale_at(sold, last);
    assert(gone.sales =~= st.sales);
    lemma_recomputed_total(gone, book);
    lemma_book_units_fit(st, book);
}

} // verus!
