//! Books: create, update, delete.

use crate::cache::{within, Cache};
use crate::cached::book_average_key;
use crate::changes::{book_changed, with_book, with_book_at, without_book};
use crate::db::AppState;
use crate::indexing::{book_change, IndexChangeView};
use crate::invalidate::{
    lemma_average_without_book, lemma_coherent_after_write, reports_forgotten, without_average,
    without_reports,
};
use crate::measures::book_position;
use crate::models::{text_of, Book, BookView};
use crate::object_id::{hex_of, is_hex_id, lemma_spells_one, spells, ObjectId};
use crate::routing::{collection_routes, table, Route};
use crate::search::SearchEngine;
use crate::seqs::views;
use crate::store::{book_change_refusal, book_refusal, has_book, StoreError, StoreView};
use crate::totals::totals_follow_sales;
use vstd::prelude::*;

verus! {

/// What a request gives of a book. The author is named by an identifier in
/// hex. The total of the sales is not taken from a request: it follows the
/// sales.
#[derive(Debug, Clone)]
pub struct BookForm {
    pub title: String,
    pub author_id: String,
    pub summary: Option<String>,
    pub publication_date: Option<String>,
    pub total_sales: Option<i64>,
}

/// The book that a form describes, under the identifier `id` and with the
/// author `author`.
pub open spec fn book_of_form(id: ObjectId, author: ObjectId, form: BookForm) -> BookView {
    BookView {
        id: id,
        author_id: author,
        title: form.title@,
        summary: text_of(form.summary),
        publication_date: text_of(form.publication_date),
        total_sales: None,
    }
}

/// The routes of the books.
pub fn routes() -> (out: Vec<Route>)
    ensures
        views(out@) == collection_routes("delete"@),
{
    let out = table("/?<q>", "delete");
    proof {
        assert(views(out@) =~= collection_routes("delete"@));
    }
    out
}

/// Adds the book of the form under the identifier `id`, makes the cache
/// forget the summary of the authors and the search pages, and hands the
/// book to the index. Refuses, and changes nothing, if the form does not
/// name an author by an identifier, or if the store does not take the
/// book.
pub fn create_with_id<C: Cache, S: SearchEngine>(
    state: &mut AppState<C, S>,
    id: ObjectId,
    form: BookForm,
) -> (out: Result<(), StoreError>)
    requires
        old(state).in_step(),
    ensures
        final(state).in_step(),
        totals_follow_sales(old(state).store()) ==> totals_follow_sales(final(state).store()),
        within(final(state).cached(), old(state).cached()),
        final(state).cache_is_exact() == old(state).cache_is_exact(),
        out is Err ==> final(state).index() == old(state).index(),
        out is Ok ==> final(state).index().took(
            &old(state).index(),
            book_change(final(state).store(), id),
        ),
        out is Err ==> final(state).store() == old(state).store() && final(state).cached()
            == old(state).cached(),
        !is_hex_id(form.author_id@) ==> out == Err::<(), _>(StoreError::InvalidId),
        forall|author: ObjectId| #[trigger]
            spells(form.author_id@, author) ==> {
                let b = book_of_form(id, author, form);
                &&& book_refusal(old(state).store(), b) matches Some(e) ==> out == Err::<(), _>(e)
                &&& book_refusal(old(state).store(), b) is None ==> out is Ok
                    && final(state).store()
                    == with_book(old(state).store(), b) && reports_forgotten(
                    final(state).cached(),
                ) && (final(state).cached() == without_reports(
                    old(state).cached(),
                ))
            },
{
    let ghost before = state.cached();
    let ghost st = state.store();
    let author = match ObjectId::parse_str(form.author_id.as_str()) {
        Some(x) => x,
        None => {
            return Err(StoreError::InvalidId);
        },
    };
    proof {
        assert forall|other: ObjectId| #[trigger]
            spells(form.author_id@, other) implies other == author by {
            lemma_spells_one(form.author_id@, other, author);
        }
    }
    let book = Book {
        id,
        author_id: author,
        title: form.title,
        summary: form.summary,
        publication_date: form.publication_date,
        total_sales: None,
    };
    proof {
        assert(book@ == book_of_form(id, author, form));
    }
    match state.db.insert_book(book) {
        Ok(()) => {
            state.forget_reports();
            state.index_book(&id);
            proof {
                lemma_coherent_after_write(before, state.cached(), st, state.store());
            }
            Ok(())
        },
        Err(e) => Err(e),
    }
}

/// Adds the book of the form under a new identifier, which it returns;
/// makes the cache forget the summary of the authors and the search pages;
/// and hands the book to the index. Refuses, and changes nothing, if the
/// form does not name an author by an identifier, or if the store does not
/// take the book under the identifier that was made.
pub fn create<C: Cache, S: SearchEngine>(
    state: &mut AppState<C, S>,
    form: BookForm,
) -> (out: Result<
    ObjectId,
    StoreError,
>)
    requires
        old(state).in_step(),
    ensures
        final(state).in_step(),
        totals_follow_sales(old(state).store()) ==> totals_follow_sales(final(state).store()),
        within(final(state).cached(), old(state).cached()),
        final(state).cache_is_exact() == old(state).cache_is_exact(),
        out is Err ==> final(state).index() == old(state).index(),
        out matches Ok(id) ==> final(state).index().took(
            &old(state).index(),
            book_change(final(state).store(), id),
        ),
        out is Err ==> final(state).store() == old(state).store() && final(state).cached()
            == old(state).cached(),
        !is_hex_id(form.author_id@) ==> out == Err::<ObjectId, _>(StoreError::InvalidId),
        forall|author: ObjectId| #[trigger]
            spells(form.author_id@, author) ==> {
                &&& out matches Ok(id) ==> book_refusal(
                    old(state).store(),
                    book_of_form(id, author, form),
                ) is None && final(state).store() == with_book(
                    old(state).store(),
                    book_of_form(id, author, form),
                ) && reports_forgotten(final(state).cached())
                &&& out matches Err(e) ==> exists|made: ObjectId|
                    book_refusal(old(state).store(), #[trigger] book_of_form(made, author, form))
                        == Some(e)
            },
{
    let id = ObjectId::new();
    match create_with_id(state, id, form) {
        Ok(()) => Ok(id),
        Err(e) => {
            proof {
                assert forall|author: ObjectId| #[trigger]
                    spells(form.author_id@, author) implies exists|made: ObjectId|
                    book_refusal(old(state).store(), #[trigger] book_of_form(made, author, form))
                        == Some(e) by {
                    assert(book_refusal(old(state).store(), book_of_form(id, author, form)) == Some(
                        e,
                    ));
                }
            }
            Err(e)
        },
    }
}

/// The store after the book `book` was given the title of the form, the
/// author `author` and, where the form gives one, its summary and
/// publication date.
pub open spec fn book_updated(
    st: StoreView,
    book: ObjectId,
    author: ObjectId,
    form: BookForm,
) -> StoreView {
    if has_book(st.books, book) {
        let at = book_position(st.books, book);
        with_book_at(
            st,
            at,
            book_changed(
                st.books[at],
                form.title@,
                author,
                text_of(form.summary),
                text_of(form.publication_date),
            ),
        )
    } else {
        st
    }
}

/// Gives the book that `id` names the title and the author of the form
/// and, where the form gives one, its summary and publication date; makes
/// the cache forget the summary of the authors and the search pages; and
/// hands the book to the index. Refuses, and changes nothing, if `id` or
/// the author of the form is not an identifier, or if the store does not
/// take the change; else says whether the store holds that book.
pub fn update<C: Cache, S: SearchEngine>(
    state: &mut AppState<C, S>,
    id: &str,
    form: BookForm,
) -> (out:
    Result<bool, StoreError>)
    requires
        old(state).in_step(),
    ensures
        final(state).in_step(),
        totals_follow_sales(old(state).store()) ==> totals_follow_sales(final(state).store()),
        within(final(state).cached(), old(state).cached()),
        final(state).cache_is_exact() == old(state).cache_is_exact(),
        out is Err || out == Ok::<_, StoreError>(false) ==> final(state).index() == old(
            state,
        ).index(),
        out == Ok::<_, StoreError>(true) ==> forall|book: ObjectId| #[trigger]
            spells(id@, book) ==> final(state).index().took(
                &old(state).index(),
                book_change(final(state).store(), book),
            ),
        out is Err ==> final(state).store() == old(state).store() && final(state).cached()
            == old(state).cached(),
        !is_hex_id(id@) || !is_hex_id(form.author_id@) ==> out == Err::<bool, _>(
            StoreError::InvalidId,
        ),
        forall|book: ObjectId, author: ObjectId|
            #![trigger spells(id@, book), spells(form.author_id@, author)]
            spells(id@, book) && spells(form.author_id@, author) ==> {
                let refusal = book_change_refusal(
                    old(state).store(),
                    author,
                    text_of(form.publication_date),
                );
                &&& refusal matches Some(e) ==> out == Err::<bool, _>(e)
                &&& refusal is None ==> out == Ok::<_, StoreError>(
                    has_book(old(state).store().books, book),
                ) && final(state).store() == book_updated(old(state).store(), book, author, form)
                    && reports_forgotten(final(state).cached()) && (final(state).cached() == without_reports(old(state).cached()))
            },
{
    let ghost before = state.cached();
    let ghost st = state.store();
    let book = match ObjectId::parse_str(id) {
        Some(x) => x,
        None => {
            return Err(StoreError::InvalidId);
        },
    };
    let author = match ObjectId::parse_str(form.author_id.as_str()) {
        Some(x) => x,
        None => {
            return Err(StoreError::InvalidId);
        },
    };
    proof {
        assert forall|other: ObjectId| #[trigger] spells(id@, other) implies other == book by {
            lemma_spells_one(id@, other, book);
        }
        assert forall|other: ObjectId| #[trigger]
            spells(form.author_id@, other) implies other == author by {
            lemma_spells_one(form.author_id@, other, author);
        }
    }
    match state.db.update_book(&book, form.title, author, form.summary, form.publication_date) {
        Ok(found) => {
            state.forget_reports();
            if found {
                state.index_book(&book);
            }
            proof {
                lemma_coherent_after_write(before, state.cached(), st, state.store());
            }
            Ok(found)
        },
        Err(e) => Err(e),
    }
}

/// Removes the book that `id` names with its reviews and its sales; makes
/// the cache forget the mean score of the book, the summary of the authors
/// and the search pages; and tells the index that the book went. Returns
/// the book. Refuses, and changes nothing, if `id` is not an identifier.
pub fn delete<C: Cache, S: SearchEngine>(state: &mut AppState<C, S>, id: &str) -> (out: Result<
    ObjectId,
    StoreError,
>)
    requires
        old(state).in_step(),
    ensures
        final(state).in_step(),
        totals_follow_sales(old(state).store()) ==> totals_follow_sales(final(state).store()),
        within(final(state).cached(), old(state).cached()),
        final(state).cache_is_exact() == old(state).cache_is_exact(),
        out is Err ==> final(state).index() == old(state).index(),
        out matches Ok(book) ==> final(state).index().took(
            &old(state).index(),
            IndexChangeView::DropBook(hex_of(book.bytes@)),
        ),
        !is_hex_id(id@) ==> out == Err::<ObjectId, _>(StoreError::InvalidId) && final(state).store()
            == old(state).store() && final(state).cached() == old(state).cached(),
        is_hex_id(id@) ==> out is Ok,
        out matches Ok(book) ==> spells(id@, book) && final(state).store() == without_book(
            old(state).store(),
            book,
        ) && reports_forgotten(final(state).cached())
            && !final(state).cached().contains_key(book_average_key(hex_of(book.bytes@))) && (final(state).cached() == without_reports(
            without_average(old(state).cached(), book),
        )),
{
    let ghost before = state.cached();
    let ghost st = state.store();
    let book = match ObjectId::parse_str(id) {
        Some(x) => x,
        None => {
            return Err(StoreError::InvalidId);
        },
    };
    state.db.delete_book(&book);
    state.forget_average(&book);
    state.forget_reports();
    state.index_book(&book);
    proof {
        assert forall|b: ObjectId|
            crate::cached::book_average(state.store().reviews, b) != crate::cached::book_average(
                st.reviews,
                b,
            ) implies !state.cached().contains_key(
            #[trigger] book_average_key(hex_of(b.bytes@)),
        ) by {
            if b != book {
                lemma_average_without_book(st, book, b);
            }
        }
        lemma_coherent_after_write(before, state.cached(), st, state.store());
    }
    Ok(book)
}

} // verus!
