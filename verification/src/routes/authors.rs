//! Authors: create, update, delete.

use crate::cache::{within, Cache};
use crate::cached::book_average_key;
use crate::changes::{author_changed, books_of, with_author, with_author_at, without_author};
use crate::db::AppState;
use crate::indexing::{book_changes, book_drops, IndexChange, IndexChangeView};
use crate::invalidate::{
    lemma_average_without_books, lemma_coherent_after_write, reports_forgotten, without_averages,
    without_reports,
};
use crate::measures::author_position;
use crate::models::{text_of, Author, AuthorView};
use crate::object_id::{hex_of, is_hex_id, lemma_spells_one, spells, ObjectId};
use crate::routing::{get_route, post_route, Method, Route, RouteView};
use crate::search::{lemma_took_one_more, took_all, SearchEngine};
use crate::seqs::views;
use crate::store::{has_author, StoreError, StoreView};
use crate::totals::totals_follow_sales;
use vstd::prelude::*;

verus! {

/// What a request gives of an author.
#[derive(Debug, Clone)]
pub struct AuthorForm {
    pub name: String,
    pub country: Option<String>,
    pub description: Option<String>,
    pub date_of_birth: Option<String>,
}

/// The author that a form describes, under the identifier `id`.
pub open spec fn author_of_form(id: ObjectId, form: AuthorForm) -> AuthorView {
    AuthorView {
        id: id,
        name: form.name@,
        date_of_birth: text_of(form.date_of_birth),
        country: text_of(form.country),
        description: text_of(form.description),
        image_path: None,
    }
}

/// The routes of the authors.
pub open spec fn author_routes() -> Seq<RouteView> {
    seq![
        get_route("/?<q>"@, "index"@),
        get_route("/create"@, "create_page"@),
        post_route("/create"@, "create"@),
        post_route("/delete/<id>"@, "delete_author"@),
        get_route("/edit/<id>"@, "edit"@),
        post_route("/update/<id>"@, "update"@),
        get_route("/read/<id>"@, "read"@),
    ]
}

/// The routes of the authors.
pub fn routes() -> (out: Vec<Route>)
    ensures
        views(out@) == author_routes(),
{
    let mut out: Vec<Route> = Vec::new();
    out.push(Route { method: Method::Get, path: "/?<q>", handler: "index" });
    out.push(Route { method: Method::Get, path: "/create", handler: "create_page" });
    out.push(Route { method: Method::Post, path: "/create", handler: "create" });
    out.push(Route { method: Method::Post, path: "/delete/<id>", handler: "delete_author" });
    out.push(Route { method: Method::Get, path: "/edit/<id>", handler: "edit" });
    out.push(Route { method: Method::Post, path: "/update/<id>", handler: "update" });
    out.push(Route { method: Method::Get, path: "/read/<id>", handler: "read" });
    proof {
        assert(views(out@) =~= author_routes());
    }
    out
}

/// Adds the author of the form under the identifier `id`, and makes the
/// cache forget the summary of the authors and the search pages. Refuses,
/// and changes nothing, if the store holds an author with that identifier.
pub fn create_with_id<C: Cache, S: SearchEngine>(
    state: &mut AppState<C, S>,
    id: ObjectId,
    form: AuthorForm,
) -> (out: Result<(), StoreError>)
    requires
        old(state).in_step(),
    ensures
        final(state).in_step(),
        totals_follow_sales(old(state).store()) ==> totals_follow_sales(final(state).store()),
        within(final(state).cached(), old(state).cached()),
        final(state).cache_is_exact() == old(state).cache_is_exact(),
        final(state).index() == old(state).index(),
        has_author(old(state).store().authors, id) ==> out == Err::<(), _>(StoreError::DuplicateId)
            && final(state).store() == old(state).store() && final(state).cached()
                == old(state).cached(),
        !has_author(old(state).store().authors, id) ==> out is Ok && final(state).store()
            == with_author(
            old(state).store(),
            author_of_form(id, form),
        ) && reports_forgotten(final(state).cached()) && (final(state).cached() == without_reports(old(state).cached())),
{
    let ghost before = state.cached();
    let ghost st = state.store();
    let author = Author {
        id,
        name: form.name,
        date_of_birth: form.date_of_birth,
        country: form.country,
        description: form.description,
        image_path: None,
    };
    match state.db.insert_author(author) {
        Ok(()) => {
            state.forget_reports();
            proof {
                lemma_coherent_after_write(before, state.cached(), st, state.store());
            }
            Ok(())
        },
        Err(e) => Err(e),
    }
}

/// Adds the author of the form under a new identifier, which it returns,
/// and makes the cache forget the summary of the authors and the search
/// pages. Refuses, and changes nothing, if the store holds an author with
/// the identifier that was made, and only then: a store without authors
/// takes every author.
pub fn create<C: Cache, S: SearchEngine>(state: &mut AppState<C, S>, form: AuthorForm) -> (out:
    Result<ObjectId, StoreError>)
    requires
        old(state).in_step(),
    ensures
        final(state).in_step(),
        totals_follow_sales(old(state).store()) ==> totals_follow_sales(final(state).store()),
        within(final(state).cached(), old(state).cached()),
        final(state).cache_is_exact() == old(state).cache_is_exact(),
        final(state).index() == old(state).index(),
        out matches Ok(id) ==> !has_author(old(state).store().authors, id) && final(state).store()
            == with_author(old(state).store(), author_of_form(id, form)) && reports_forgotten(
            final(state).cached(),
        ),
        out matches Err(e) ==> e == StoreError::DuplicateId && final(state).store()
            == old(state).store()
            && final(state).cached() == old(state).cached(),
        exists|made: ObjectId|
            {
                let held = #[trigger] has_author(old(state).store().authors, made);
                &&& held ==> out == Err::<ObjectId, _>(StoreError::DuplicateId)
                &&& !held ==> out == Ok::<_, StoreError>(made) && final(state).store()
                    == with_author(old(state).store(), author_of_form(made, form))
                    && (final(state).cached() == without_reports(
                    old(state).cached(),
                ))
            },
{
    let id = ObjectId::new();
    match create_with_id(state, id, form) {
        Ok(()) => Ok(id),
        Err(e) => Err(e),
    }
}

/// The store after the author `author` was given the name of the form and,
/// where the form gives one, its country, description and date of birth.
pub open spec fn author_updated(st: StoreView, author: ObjectId, form: AuthorForm) -> StoreView {
    if has_author(st.authors, author) {
        let at = author_position(st.authors, author);
        with_author_at(
            st,
            at,
            author_changed(
                st.authors[at],
                form.name@,
                text_of(form.country),
                text_of(form.description),
                text_of(form.date_of_birth),
            ),
        )
    } else {
        st
    }
}

/// Gives the author that `id` names the name of the form and, where the
/// form gives one, its country, description and date of birth; makes the
/// cache forget the summary of the authors and the search pages; and hands
/// the books of the author to the index. Refuses, and changes nothing, if
/// `id` is not an identifier; else says whether the store holds that
/// author.
pub fn update<C: Cache, S: SearchEngine>(
    state: &mut AppState<C, S>,
    id: &str,
    form: AuthorForm,
) -> (out:
    Result<bool, StoreError>)
    requires
        old(state).in_step(),
    ensures
        final(state).in_step(),
        totals_follow_sales(old(state).store()) ==> totals_follow_sales(final(state).store()),
        within(final(state).cached(), old(state).cached()),
        final(state).cache_is_exact() == old(state).cache_is_exact(),
        out is Err || out == Ok::<_, StoreError>(false) ==> final(state).index() == old(
            state,
        ).index(),
        out == Ok::<_, StoreError>(true) ==> forall|author: ObjectId| #[trigger]
            spells(id@, author) ==> took_all(
                final(state).index(),
                old(state).index(),
                book_changes(
                    final(state).store(),
                    books_of(final(state).store().books, author),
                ),
            ),
        !is_hex_id(id@) ==> out == Err::<bool, _>(StoreError::InvalidId) && final(state).store()
            == old(state).store() && final(state).cached() == old(state).cached(),
        forall|author: ObjectId| #[trigger]
            spells(id@, author) ==> out == Ok::<_, StoreError>(
                has_author(old(state).store().authors, author),
            ) && final(state).store() == author_updated(old(state).store(), author, form)
                && reports_forgotten(final(state).cached()) && (final(state).cached() == without_reports(old(state).cached())),
{
    let ghost before = state.cached();
    let ghost st = state.store();
    let author = match ObjectId::parse_str(id) {
        Some(x) => x,
        None => {
            return Err(StoreError::InvalidId);
        },
    };
    let found = state.db.update_author(
        &author,
        form.name,
        form.country,
        form.description,
        form.date_of_birth,
    );
    state.forget_reports();
    if found {
        state.index_books_of(&author);
    }
    proof {
        lemma_coherent_after_write(before, state.cached(), st, state.store());
        assert forall|other: ObjectId| #[trigger] spells(id@, other) implies other == author by {
            lemma_spells_one(id@, other, author);
        }
    }
    Ok(found)
}

/// Removes the author that `id` names and, before that, each book of the
/// author with its reviews and its sales; makes the cache forget the mean
/// score of each such book, the summary of the authors and the search
/// pages; and tells the index that the books went. Returns the books that
/// went. Refuses, and changes nothing, if `id` is not an identifier.
pub fn delete_author<C: Cache, S: SearchEngine>(state: &mut AppState<C, S>, id: &str) -> (out:
    Result<Vec<ObjectId>, StoreError>)
    requires
        old(state).in_step(),
    ensures
        final(state).in_step(),
        totals_follow_sales(old(state).store()) ==> totals_follow_sales(final(state).store()),
        within(final(state).cached(), old(state).cached()),
        final(state).cache_is_exact() == old(state).cache_is_exact(),
        out is Err ==> final(state).index() == old(state).index(),
        out matches Ok(gone) ==> took_all(
            final(state).index(),
            old(state).index(),
            book_drops(gone@),
        ),
        !is_hex_id(id@) ==> out == Err::<Vec<ObjectId>, _>(StoreError::InvalidId)
            && final(state).store() == old(state).store() && final(state).cached()
                == old(state).cached(),
        forall|author: ObjectId| #[trigger]
            spells(id@, author) ==> out is Ok && out->Ok_0@ == books_of(
                old(state).store().books,
                author,
            ) && final(state).store() == without_author(old(state).store(), author)
                && reports_forgotten(
                final(state).cached(),
            ) && (final(state).cached() == without_reports(
                without_averages(old(state).cached(), books_of(old(state).store().books, author)),
            )),
        out matches Ok(gone) ==> forall|k: int|
            0 <= k < gone.len() ==> !final(state).cached().contains_key(
                book_average_key(hex_of((#[trigger] gone@[k]).bytes@)),
            ),
{
    let ghost before = state.cached();
    let ghost st = state.store();
    let author = match ObjectId::parse_str(id) {
        Some(x) => x,
        None => {
            return Err(StoreError::InvalidId);
        },
    };
    let gone = state.db.delete_author(&author);
    let ghost next = state.store();
    let mut k: usize = 0;
    proof {
        assert(book_drops(gone@.take(0)) =~= Seq::<IndexChangeView>::empty());
    }
    while k < gone.len()
        invariant
            k <= gone.len(),
            state.store() == next,
            took_all(state.index(), old(state).index(), book_drops(gone@.take(k as int))),
            state.cache_is_exact() == old(state).cache_is_exact(),
            within(state.cached(), before),
            state.cached() == without_averages(
                before,
                gone@.take(k as int),
            ),
            forall|j: int|
                0 <= j < k ==> !state.cached().contains_key(
                    book_average_key(hex_of((#[trigger] gone@[j]).bytes@)),
                ),
        decreases gone.len() - k,
    {
        proof {
            assert(gone@.take(k as int + 1).drop_last() =~= gone@.take(k as int));
        }
        state.forget_average(&gone[k]);
        let ghost mid = state.index();
        state.tell_index(&IndexChange::DropBook(gone[k].to_hex()));
        proof {
            let drop = IndexChangeView::DropBook(hex_of(gone@[k as int].bytes@));
            lemma_took_one_more(
                state.index(),
                mid,
                old(state).index(),
                book_drops(gone@.take(k as int)),
                drop,
            );
            assert(book_drops(gone@.take(k as int + 1)) =~= book_drops(gone@.take(k as int)).push(
                drop,
            ));
        }
        k += 1;
    }
    proof {
        assert(gone@.take(gone.len() as int) =~= gone@);
    }
    state.forget_reports();
    proof {
        assert forall|b: ObjectId|
            crate::cached::book_average(next.reviews, b) != crate::cached::book_average(
                st.reviews,
                b,
            ) implies !state.cached().contains_key(
            #[trigger] book_average_key(hex_of(b.bytes@)),
        ) by {
            if !gone@.contains(b) {
                lemma_average_without_books(st, gone@, b);
            } else {
                let j = choose|j: int| 0 <= j < gone@.len() && gone@[j] == b;
                assert(!state.cached().contains_key(
                    book_average_key(hex_of(gone@[j].bytes@)),
                ));
            }
        }
        lemma_coherent_after_write(before, state.cached(), st, next);
        assert forall|other: ObjectId| #[trigger] spells(id@, other) implies other == author by {
            lemma_spells_one(id@, other, author);
        }
    }
    Ok(gone)
}

} // verus!
