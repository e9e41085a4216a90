//! Reviews: create, update, delete.

use crate::cache::{within, Cache};
use crate::cached::{book_average, book_average_key};
use crate::changes::{
    review_change_refusal, review_position, review_refusal, with_review, with_review_at,
    without_review_at,
};
use crate::db::AppState;
use crate::indexing::{review_change, IndexChangeView};
use crate::invalidate::{
    lemma_average_with_review, lemma_average_with_review_at, lemma_average_without_review_at,
    lemma_coherent_after_write, reports_forgotten, without_average, without_reports,
};
use crate::models::{Review, ReviewView};
use crate::object_id::{hex_of, is_hex_id, lemma_spells_one, spells, ObjectId};
use crate::routing::{collection_routes, table, Route};
use crate::search::SearchEngine;
use crate::seqs::views;
use crate::store::{has_review, StoreError, StoreView};
use crate::totals::totals_follow_sales;
use vstd::prelude::*;

verus! {

/// What a request gives of a review. The book is named by an identifier in
/// hex.
#[derive(Debug, Clone)]
pub struct ReviewForm {
    pub book_id: String,
    pub text: String,
    pub score: i32,
    pub up_votes: Option<i64>,
}

/// A score brought into the range from 1 to 5.
pub open spec fn score_in_range(score: i32) -> i32 {
    if score < 1 {
        1
    } else if score > 5 {
        5
    } else {
        score
    }
}

/// The up-votes that a form gives: none where it gives none or a negative
/// count.
pub open spec fn votes_given(up_votes: Option<i64>) -> i64 {
    match up_votes {
        Some(n) => if n < 0 {
            0
        } else {
            n
        },
        None => 0,
    }
}

/// The review that a form describes, under the identifier `id` and for the
/// book `book`.
pub open spec fn review_of_form(id: ObjectId, book: ObjectId, form: ReviewForm) -> ReviewView {
    ReviewView {
        id: id,
        book_id: book,
        text: form.text@,
        score: score_in_range(form.score),
        up_votes: votes_given(form.up_votes),
    }
}

/// A score brought into the range from 1 to 5.
pub fn clamp_score(score: i32) -> (out: i32)
    ensures
        out == score_in_range(score),
        1 <= out <= 5,
{
    if score < 1 {
        1
    } else if score > 5 {
        5
    } else {
        score
    }
}

/// The up-votes that a form gives.
pub fn votes_of(up_votes: Option<i64>) -> (out: i64)
    ensures
        out == votes_given(up_votes),
        out >= 0,
{
    match up_votes {
        Some(n) => if n < 0 {
            0
        } else {
            n
        },
        None => 0,
    }
}

/// The routes of the reviews.
pub fn routes() -> (out: Vec<Route>)
    ensures
        views(out@) == collection_routes("delete"@),
{
    let out = table("/?<q>", "delete");
    proof {
        assert(views(out@) =~= collection_routes("delete"@));
    }
    out
}

/// Adds the review of the form under the identifier `id`, with its score
/// brought into range; makes the cache forget the mean score of its book,
/// the summary of the authors and the search pages; and hands the review
/// to the index. Refuses, and changes nothing, if the form does not name a
/// book by an identifier, or if the store does not take the review.
pub fn create_with_id<C: Cache, S: SearchEngine>(
    state: &mut AppState<C, S>,
    id: ObjectId,
    form: ReviewForm,
) -> (out: Result<(), StoreError>)
    requires
        old(state).in_step(),
    ensures
        final(state).in_step(),
        totals_follow_sales(old(state).store()) ==> totals_follow_sales(final(state).store()),
        within(final(state).cached(), old(state).cached()),
        final(state).cache_is_exact() == old(state).cache_is_exact(),
        out is Err ==> final(state).index() == old(state).index(),
        out is Ok ==> final(state).index().took(
            &old(state).index(),
            review_change(final(state).store(), id),
        ),
        out is Err ==> final(state).store() == old(state).store() && final(state).cached()
            == old(state).cached(),
        !is_hex_id(form.book_id@) ==> out == Err::<(), _>(StoreError::InvalidId),
        forall|book: ObjectId| #[trigger]
            spells(form.book_id@, book) ==> {
                let r = review_of_form(id, book, form);
                &&& review_refusal(old(state).store(), r) matches Some(e) ==> out == Err::<(), _>(e)
                &&& review_refusal(old(state).store(), r) is None ==> out is Ok
                    && final(state).store()
                    == with_review(old(state).store(), r) && reports_forgotten(
                    final(state).cached(),
                ) && !final(state).cached().contains_key(
                    book_average_key(hex_of(book.bytes@)),
                ) && (final(state).cached() == without_reports(
                    without_average(old(state).cached(), book),
                ))
            },
{
    let ghost before = state.cached();
    let ghost st = state.store();
    let book = match ObjectId::parse_str(form.book_id.as_str()) {
        Some(x) => x,
        None => {
            return Err(StoreError::InvalidId);
        },
    };
    proof {
        assert forall|other: ObjectId| #[trigger]
            spells(form.book_id@, other) implies other == book by {
            lemma_spells_one(form.book_id@, other, book);
        }
    }
    let review = Review {
        id,
        book_id: book,
        text: form.text,
        score: clamp_score(form.score),
        up_votes: votes_of(form.up_votes),
    };
    proof {
        assert(review@ == review_of_form(id, book, form));
    }
    let ghost r = review@;
    match state.db.insert_review(review) {
        Ok(()) => {
            state.forget_average(&book);
            state.forget_reports();
            state.index_review(&id);
            proof {
                assert forall|b: ObjectId|
                    book_average(state.store().reviews, b) != book_average(
                        st.reviews,
                        b,
                    ) implies !state.cached().contains_key(
                    #[trigger] book_average_key(hex_of(b.bytes@)),
                ) by {
                    if b != book {
                        lemma_average_with_review(st.reviews, r, b);
                    }
                }
                lemma_coherent_after_write(before, state.cached(), st, state.store());
            }
            Ok(())
        },
        Err(e) => Err(e),
    }
}

/// Adds the review of the form under a new identifier, which it returns,
/// with its score brought into range; makes the cache forget the mean score
/// of its book, the summary of the authors and the search pages; and hands
/// the review to the index. Refuses, and changes nothing, if the form does
/// not name a book by an identifier, or if the store does not take the
/// review under the identifier that was made.
pub fn create<C: Cache, S: SearchEngine>(state: &mut AppState<C, S>, form: ReviewForm) -> (out:
    Result<ObjectId, StoreError>)
    requires
        old(state).in_step(),
    ensures
        final(state).in_step(),
        totals_follow_sales(old(state).store()) ==> totals_follow_sales(final(state).store()),
        within(final(state).cached(), old(state).cached()),
        final(state).cache_is_exact() == old(state).cache_is_exact(),
        out is Err ==> final(state).index() == old(state).index(),
        out matches Ok(id) ==> final(state).index().took(
            &old(state).index(),
            review_change(final(state).store(), id),
        ),
        out is Err ==> final(state).store() == old(state).store() && final(state).cached()
            == old(state).cached(),
        !is_hex_id(form.book_id@) ==> out == Err::<ObjectId, _>(StoreError::InvalidId),
        forall|book: ObjectId| #[trigger]
            spells(form.book_id@, book) ==> {
                &&& out matches Ok(id) ==> review_refusal(
                    old(state).store(),
                    review_of_form(id, book, form),
                ) is None && final(state).store() == with_review(
                    old(state).store(),
                    review_of_form(id, book, form),
                ) && reports_forgotten(final(state).cached())
                    && !final(state).cached().contains_key(book_average_key(hex_of(book.bytes@)))
                &&& out matches Err(e) ==> exists|made: ObjectId|
                    review_refusal(old(state).store(), #[trigger] review_of_form(made, book, form))
                        == Some(e)
            },
{
    let id = ObjectId::new();
    match create_with_id(state, id, form) {
        Ok(()) => Ok(id),
        Err(e) => {
            proof {
                assert forall|book: ObjectId| #[trigger]
                    spells(form.book_id@, book) implies exists|made: ObjectId|
                    review_refusal(old(state).store(), #[trigger] review_of_form(made, book, form))
                        == Some(e) by {
                    assert(review_refusal(old(state).store(), review_of_form(id, book, form))
                        == Some(e));
                }
            }
            Err(e)
        },
    }
}

/// The store after the review `review` was given the book `book` and the
/// text, the score and the up-votes of the form.
pub open spec fn review_updated(
    st: StoreView,
    review: ObjectId,
    book: ObjectId,
    form: ReviewForm,
) -> StoreView {
    if has_review(st.reviews, review) {
        with_review_at(
            st,
            review_position(st.reviews, review),
            review_of_form(review, book, form),
        )
    } else {
        st
    }
}

/// Gives the review that `id` names the book, the text, the score and the
/// up-votes of the form, the score brought into range; makes the cache
/// forget the mean scores of the book that the review had and of the book
/// that it has, the summary of the authors and the search pages; and hands
/// the review to the index. Refuses, and changes nothing, if `id` or the
/// book of the form is not an identifier, or if the store does not take the
/// change; else says whether the store holds that review.
pub fn update<C: Cache, S: SearchEngine>(
    state: &mut AppState<C, S>,
    id: &str,
    form: ReviewForm,
) -> (out:
    Result<bool, StoreError>)
    requires
        old(state).in_step(),
    ensures
        final(state).in_step(),
        totals_follow_sales(old(state).store()) ==> totals_follow_sales(final(state).store()),
        within(final(state).cached(), old(state).cached()),
        final(state).cache_is_exact() == old(state).cache_is_exact(),
        out is Err || out == Ok::<_, StoreError>(false) ==> final(state).index() == old(
            state,
        ).index(),
        out == Ok::<_, StoreError>(true) ==> forall|review: ObjectId| #[trigger]
            spells(id@, review) ==> final(state).index().took(
                &old(state).index(),
                review_change(final(state).store(), review),
            ),
        out is Err ==> final(state).store() == old(state).store() && final(state).cached()
            == old(state).cached(),
        !is_hex_id(id@) || !is_hex_id(form.book_id@) ==> out == Err::<bool, _>(
            StoreError::InvalidId,
        ),
        forall|review: ObjectId, book: ObjectId|
            #![trigger spells(id@, review), spells(form.book_id@, book)]
            spells(id@, review) && spells(form.book_id@, book) ==> {
                let refusal = review_change_refusal(
                    old(state).store(),
                    book,
                    score_in_range(form.score),
                    votes_given(form.up_votes),
                );
                &&& refusal matches Some(e) ==> out == Err::<bool, _>(e)
                &&& refusal is None ==> final(state).cached()
                    == without_reports(
                    without_average(
                        match book_of_review(old(state).store(), review) {
                            Some(had) => without_average(old(state).cached(), had),
                            None => old(state).cached(),
                        },
                        book,
                    ),
                )
                &&& refusal is None ==> out == Ok::<_, StoreError>(
                    has_review(old(state).store().reviews, review),
                ) && final(state).store() == review_updated(old(state).store(), review, book, form)
                    && reports_forgotten(final(state).cached())
                        && !final(state).cached().contains_key(
                        book_average_key(hex_of(book.bytes@)),
                    ) && (
                has_review(old(state).store().reviews, review)
                    ==> !final(state).cached().contains_key(
                    book_average_key(
                        hex_of(
                            old(state).store().reviews[review_position(
                                old(state).store().reviews,
                                review,
                            )].book_id.bytes@,
                        ),
                    ),
                ))
            },
{
    let ghost before = state.cached();
    let ghost st = state.store();
    let review = match ObjectId::parse_str(id) {
        Some(x) => x,
        None => {
            return Err(StoreError::InvalidId);
        },
    };
    let book = match ObjectId::parse_str(form.book_id.as_str()) {
        Some(x) => x,
        None => {
            return Err(StoreError::InvalidId);
        },
    };
    proof {
        assert forall|other: ObjectId| #[trigger] spells(id@, other) implies other == review by {
            lemma_spells_one(id@, other, review);
        }
        assert forall|other: ObjectId| #[trigger]
            spells(form.book_id@, other) implies other == book by {
            lemma_spells_one(form.book_id@, other, book);
        }
    }
    let score = clamp_score(form.score);
    let up_votes = votes_of(form.up_votes);
    let ghost r = review_of_form(review, book, form);
    match state.db.update_review(&review, book, form.text, score, up_votes) {
        Ok(had) => {
            match had {
                Some(earlier) => {
                    state.forget_average(&earlier);
                },
                None => {},
            }
            state.forget_average(&book);
            state.forget_reports();
            if had.is_some() {
                state.index_review(&review);
            }
            proof {
                let at = review_position(st.reviews, review);
                assert forall|b: ObjectId|
                    book_average(state.store().reviews, b) != book_average(
                        st.reviews,
                        b,
                    ) implies !state.cached().contains_key(
                    #[trigger] book_average_key(hex_of(b.bytes@)),
                ) by {
                    if had is Some && b != book && b != had->0 {
                        lemma_average_with_review_at(st.reviews, at, r, b);
                    }
                }
                lemma_coherent_after_write(before, state.cached(), st, state.store());
            }
            Ok(had.is_some())
        },
        Err(e) => Err(e),
    }
}

/// The store after the review `review` went.
pub open spec fn review_deleted(st: StoreView, review: ObjectId) -> StoreView {
    if has_review(st.reviews, review) {
        without_review_at(st, review_position(st.reviews, review))
    } else {
        st
    }
}

/// The book of the review `review`, if the store holds that review.
pub open spec fn book_of_review(st: StoreView, review: ObjectId) -> Option<ObjectId> {
    if has_review(st.reviews, review) {
        Some(st.reviews[review_position(st.reviews, review)].book_id)
    } else {
        None
    }
}

/// Removes the review that `id` names; makes the cache forget the mean
/// score of its book, the summary of the authors and the search pages; and
/// tells the index that the review went. Returns the book that the review
/// had, if the store held the review. Refuses, and changes nothing, if
/// `id` is not an identifier.
pub fn delete<C: Cache, S: SearchEngine>(state: &mut AppState<C, S>, id: &str) -> (out: Result<
    Option<ObjectId>,
    StoreError,
>)
    requires
        old(state).in_step(),
    ensures
        final(state).in_step(),
        totals_follow_sales(old(state).store()) ==> totals_follow_sales(final(state).store()),
        within(final(state).cached(), old(state).cached()),
        final(state).cache_is_exact() == old(state).cache_is_exact(),
        out is Err ==> final(state).index() == old(state).index(),
        out is Ok ==> forall|review: ObjectId| #[trigger]
            spells(id@, review) ==> final(state).index().took(
                &old(state).index(),
                IndexChangeView::DropReview(hex_of(review.bytes@)),
            ),
        !is_hex_id(id@) ==> out == Err::<Option<ObjectId>, _>(StoreError::InvalidId)
            && final(state).store() == old(state).store() && final(state).cached()
                == old(state).cached(),
        forall|review: ObjectId| #[trigger]
            spells(id@, review) ==> out == Ok::<_, StoreError>(
                book_of_review(old(state).store(), review),
            ) && final(state).store() == review_deleted(old(state).store(), review)
                && reports_forgotten(
                final(state).cached(),
            ) && (final(state).cached() == without_reports(
                match book_of_review(old(state).store(), review) {
                    Some(had) => without_average(old(state).cached(), had),
                    None => old(state).cached(),
                },
            )),
        out matches Ok(Some(book)) ==> !final(state).cached().contains_key(
            book_average_key(hex_of(book.bytes@)),
        ),
{
    let ghost before = state.cached();
    let ghost st = state.store();
    let review = match ObjectId::parse_str(id) {
        Some(x) => x,
        None => {
            return Err(StoreError::InvalidId);
        },
    };
    proof {
        assert forall|other: ObjectId| #[trigger] spells(id@, other) implies other == review by {
            lemma_spells_one(id@, other, review);
        }
    }
    let had = state.db.delete_review(&review);
    match had {
        Some(book) => {
            state.forget_average(&book);
        },
        None => {},
    }
    state.forget_reports();
    state.index_review(&review);
    proof {
        let at = review_position(st.reviews, review);
        assert forall|b: ObjectId|
            book_average(state.store().reviews, b) != book_average(
                st.reviews,
                b,
            ) implies !state.cached().contains_key(
            #[trigger] book_average_key(hex_of(b.bytes@)),
        ) by {
            if had is Some && b != had->0 {
                lemma_average_without_review_at(st.reviews, at, b);
            }
        }
        lemma_coherent_after_write(before, state.cached(), st, state.store());
    }
    Ok(had)
}

} // verus!
