//! Sales: create, update, delete. A write of a sale rewrites the total of
//! its book, and with it what the authors are shown to have sold: so it
//! makes the cache forget the summary of the authors and the search pages,
//! as every write of a book does.

use crate::cache::{within, Cache};
use crate::changes::{
    lemma_sale_writes_keep_reviews, sale_change_refusal, sale_changed, sale_deleted, sale_position,
    sale_recorded, sale_refusal,
};
use crate::db::AppState;
use crate::invalidate::{lemma_coherent_after_write, reports_forgotten, without_reports};
use crate::object_id::{is_hex_id, lemma_spells_one, spells, ObjectId};
use crate::routing::{collection_routes, get_route, table, Route};
use crate::search::SearchEngine;
use crate::seqs::views;
use crate::store::{has_sale, StoreError, StoreView};
use crate::totals::totals_follow_sales;
use vstd::prelude::*;

verus! {

/// What a request gives of a sale. The book is named by an identifier in
/// hex.
#[derive(Debug, Clone)]
pub struct SaleForm {
    pub book_id: String,
    pub year: i32,
    pub units: i64,
}

/// The routes of the sales.
pub fn routes() -> (out: Vec<Route>)
    ensures
        views(out@) == collection_routes("delete"@).update(
            0,
            get_route("/?<q_book>&<q_year>"@, "index"@),
        ),
{
    table("/?<q_book>&<q_year>", "delete")
}

/// Records the units of the form for its book and year: the sale of that
/// book for that year takes them, or a new sale under the identifier `id`;
/// the total of the book is written anew; and the cache forgets the summary
/// of the authors and the search pages. Refuses, and changes nothing, if
/// the form does not name a book by an identifier, or if the store does
/// not take the sale.
pub fn create_with_id<C: Cache, S: SearchEngine>(
    state: &mut AppState<C, S>,
    id: ObjectId,
    form: SaleForm,
) -> (out: Result<(), StoreError>)
    requires
        old(state).in_step(),
    ensures
        final(state).in_step(),
        totals_follow_sales(old(state).store()) ==> totals_follow_sales(final(state).store()),
        within(final(state).cached(), old(state).cached()),
        final(state).cache_is_exact() == old(state).cache_is_exact(),
        final(state).index() == old(state).index(),
        out is Err ==> final(state).store() == old(state).store() && final(state).cached()
            == old(state).cached(),
        !is_hex_id(form.book_id@) ==> out == Err::<(), _>(StoreError::InvalidId),
        forall|book: ObjectId| #[trigger]
            spells(form.book_id@, book) ==> {
                let refusal = sale_refusal(old(state).store(), id, book, form.year, form.units);
                &&& refusal matches Some(e) ==> out == Err::<(), _>(e)
                &&& refusal is None ==> out is Ok && final(state).store() == sale_recorded(
                    old(state).store(),
                    id,
                    book,
                    form.year,
                    form.units,
                ) && reports_forgotten(final(state).cached()) && (final(state).cached() == without_reports(old(state).cached()))
            },
{
    let ghost before = state.cached();
    let ghost st = state.store();
    let book = match ObjectId::parse_str(form.book_id.as_str()) {
        Some(x) => x,
        None => {
            return Err(StoreError::InvalidId);
        },
    };
    proof {
        assert forall|other: ObjectId| #[trigger]
            spells(form.book_id@, other) implies other == book by {
            lemma_spells_one(form.book_id@, other, book);
        }
    }
    match state.db.record_sale(id, book, form.year, form.units) {
        Ok(()) => {
            state.forget_reports();
            proof {
                lemma_sale_writes_keep_reviews(st, id, book, form.year, form.units, 0);
                lemma_coherent_after_write(before, state.cached(), st, state.store());
            }
            Ok(())
        },
        Err(e) => Err(e),
    }
}

/// Records the units of the form for its book and year, as
/// `create_with_id` does, with a new identifier for the sale in case one is
/// added.
pub fn create<C: Cache, S: SearchEngine>(state: &mut AppState<C, S>, form: SaleForm) -> (out:
    Result<(), StoreError>)
    requires
        old(state).in_step(),
    ensures
        final(state).in_step(),
        totals_follow_sales(old(state).store()) ==> totals_follow_sales(final(state).store()),
        within(final(state).cached(), old(state).cached()),
        final(state).cache_is_exact() == old(state).cache_is_exact(),
        final(state).index() == old(state).index(),
        out is Err ==> final(state).store() == old(state).store() && final(state).cached()
            == old(state).cached(),
        !is_hex_id(form.book_id@) ==> out == Err::<(), _>(StoreError::InvalidId),
        forall|book: ObjectId| #[trigger]
            spells(form.book_id@, book) ==> exists|made: ObjectId|
                {
                    let refusal = #[trigger] sale_refusal(
                        old(state).store(),
                        made,
                        book,
                        form.year,
                        form.units,
                    );
                    &&& refusal matches Some(e) ==> out == Err::<(), _>(e)
                    &&& refusal is None ==> out is Ok && final(state).store() == sale_recorded(
                        old(state).store(),
                        made,
                        book,
                        form.year,
                        form.units,
                    ) && reports_forgotten(final(state).cached())
                },
{
    let id = ObjectId::new();
    let out = create_with_id(state, id, form);
    proof {
        assert forall|book: ObjectId| #[trigger] spells(form.book_id@, book) implies exists|
            made: ObjectId,
        |
            {
                let refusal = #[trigger] sale_refusal(
                    old(state).store(),
                    made,
                    book,
                    form.year,
                    form.units,
                );
                &&& refusal matches Some(e) ==> out == Err::<(), _>(e)
                &&& refusal is None ==> out is Ok && final(state).store() == sale_recorded(
                    old(state).store(),
                    made,
                    book,
                    form.year,
                    form.units,
                ) && reports_forgotten(final(state).cached())
            } by {
            let refusal = sale_refusal(old(state).store(), id, book, form.year, form.units);
            assert(refusal matches Some(e) ==> out == Err::<(), _>(e));
        }
    }
    out
}

/// The book of the sale `sale`, if the store holds that sale.
pub open spec fn book_of_sale(st: StoreView, sale: ObjectId) -> Option<ObjectId> {
    if has_sale(st.sales, sale) {
        Some(st.sales[sale_position(st.sales, sale)].book_id)
    } else {
        None
    }
}

/// Gives the sale that `id` names the book, the year and the units of the
/// form; a sale of that book for that year which was there takes the units
/// in its place. The totals of the book that the sale had and of the book
/// that it has are written anew, and the cache forgets the summary of the
/// authors and the search pages. Returns the book that the sale had, if
/// the store held the sale. Refuses, and changes nothing, if `id` or the
/// book of the form is not an identifier, or if the store does not take the
/// change.
pub fn update<C: Cache, S: SearchEngine>(
    state: &mut AppState<C, S>,
    id: &str,
    form: SaleForm,
) -> (out:
    Result<Option<ObjectId>, StoreError>)
    requires
        old(state).in_step(),
    ensures
        final(state).in_step(),
        totals_follow_sales(old(state).store()) ==> totals_follow_sales(final(state).store()),
        within(final(state).cached(), old(state).cached()),
        final(state).cache_is_exact() == old(state).cache_is_exact(),
        final(state).index() == old(state).index(),
        out is Err ==> final(state).store() == old(state).store() && final(state).cached()
            == old(state).cached(),
        !is_hex_id(id@) || !is_hex_id(form.book_id@) ==> out == Err::<Option<ObjectId>, _>(
            StoreError::InvalidId,
        ),
        forall|sale: ObjectId, book: ObjectId|
            #![trigger spells(id@, sale), spells(form.book_id@, book)]
            spells(id@, sale) && spells(form.book_id@, book) ==> {
                let refusal = sale_change_refusal(
                    old(state).store(),
                    sale,
                    book,
                    form.year,
                    form.units,
                );
                &&& refusal matches Some(e) ==> out == Err::<Option<ObjectId>, _>(e)
                &&& refusal is None ==> out == Ok::<_, StoreError>(
                    book_of_sale(old(state).store(), sale),
                ) && final(state).store() == sale_changed(
                    old(state).store(),
                    sale,
                    book,
                    form.year,
                    form.units,
                ) && reports_forgotten(final(state).cached()) && (final(state).cached() == without_reports(old(state).cached()))
            },
{
    let ghost before = state.cached();
    let ghost st = state.store();
    let sale = match ObjectId::parse_str(id) {
        Some(x) => x,
        None => {
            return Err(StoreError::InvalidId);
        },
    };
    let book = match ObjectId::parse_str(form.book_id.as_str()) {
        Some(x) => x,
        None => {
            return Err(StoreError::InvalidId);
        },
    };
    proof {
        assert forall|other: ObjectId| #[trigger] spells(id@, other) implies other == sale by {
            lemma_spells_one(id@, other, sale);
        }
        assert forall|other: ObjectId| #[trigger]
            spells(form.book_id@, other) implies other == book by {
            lemma_spells_one(form.book_id@, other, book);
        }
    }
    match state.db.update_sale(&sale, book, form.year, form.units) {
        Ok(had) => {
            state.forget_reports();
            proof {
                lemma_sale_writes_keep_reviews(st, sale, book, form.year, form.units, 0);
                lemma_coherent_after_write(before, state.cached(), st, state.store());
            }
            Ok(had)
        },
        Err(e) => Err(e),
    }
}

/// The store after the sale `sale` went and the total of its book was
/// written anew.
pub open spec fn sale_removed(st: StoreView, sale: ObjectId) -> StoreView {
    if has_sale(st.sales, sale) {
        sale_deleted(st, sale_position(st.sales, sale))
    } else {
        st
    }
}

/// Removes the sale that `id` names, writes the total of its book anew,
/// and makes the cache forget the summary of the authors and the search
/// pages. Returns the book that the sale had, if the store held the sale.
/// Refuses, and changes nothing, if `id` is not an identifier.
pub fn delete<C: Cache, S: SearchEngine>(state: &mut AppState<C, S>, id: &str) -> (out: Result<
    Option<ObjectId>,
    StoreError,
>)
    requires
        old(state).in_step(),
    ensures
        final(state).in_step(),
        totals_follow_sales(old(state).store()) ==> totals_follow_sales(final(state).store()),
        within(final(state).cached(), old(state).cached()),
        final(state).cache_is_exact() == old(state).cache_is_exact(),
        final(state).index() == old(state).index(),
        !is_hex_id(id@) ==> out == Err::<Option<ObjectId>, _>(StoreError::InvalidId)
            && final(state).store() == old(state).store() && final(state).cached()
                == old(state).cached(),
        forall|sale: ObjectId| #[trigger]
            spells(id@, sale) ==> out == Ok::<_, StoreError>(book_of_sale(old(state).store(), sale))
                && final(state).store() == sale_removed(old(state).store(), sale)
                    && reports_forgotten(
                final(state).cached(),
            ) && (final(state).cached() == without_reports(
                old(state).cached(),
            )),
{
    let ghost before = state.cached();
    let ghost st = state.store();
    let sale = match ObjectId::parse_str(id) {
        Some(x) => x,
        None => {
            return Err(StoreError::InvalidId);
        },
    };
    proof {
        assert forall|other: ObjectId| #[trigger] spells(id@, other) implies other == sale by {
            lemma_spells_one(id@, other, sale);
        }
    }
    let had = state.db.delete_sale(&sale);
    state.forget_reports();
    proof {
        let at = sale_position(st.sales, sale);
        lemma_sale_writes_keep_reviews(st, sale, sale, 0, 0, at);
        lemma_coherent_after_write(before, state.cached(), st, state.store());
    }
    Ok(had)
}

} // verus!
