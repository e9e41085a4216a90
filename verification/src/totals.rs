//! The total of a book follows its sales: what is written on a book as its
//! total sales is the sum of the units of its sales, through every write.

use crate::changes::{
    book_is_not, has_sale_for, lemma_found_slot, lemma_recomputed_total, lemma_with_sale,
    lemma_with_sale_at, lemma_without_sale_at, recomputed, sale_changed, sale_deleted, sale_merges,
    sale_not_of, sale_position, sale_recorded, sale_slot, sales_changed, with_book, with_book_at,
    with_sale, with_sale_at, without_author, without_book, without_books, without_sale_at,
};
use crate::measures::{book_position, book_units, units_for_book};
use crate::models::{AuthorView, BookView, ReviewView, Sale};
use crate::object_id::ObjectId;
use crate::seqs::{
    lemma_filter_member, lemma_sum_bounds, lemma_sum_filter_same, lemma_sum_push, lemma_sum_remove,
    lemma_sum_update,
};
use crate::store::{has_author, has_book, has_sale, StoreView};
use vstd::prelude::*;

verus! {

/// Whether a total is that of a book that sold `sold` units: it is `sold`
/// where it is written, and nothing was sold where it is not.
pub open spec fn total_is(total: Option<i64>, sold: int) -> bool {
    match total {
        Some(t) => t == sold,
        None => sold == 0,
    }
}

/// Whether the total of every book is the sum of the units of its sales.
pub open spec fn totals_follow_sales(st: StoreView) -> bool {
    forall|i: int|
        0 <= i < st.books.len() ==> total_is(
            (#[trigger] st.books[i]).total_sales,
            book_units(st.sales, st.books[i].id),
        )
}

/// A book that no sale names sold nothing.
proof fn lemma_unsold(sales: Seq<Sale>, book: ObjectId)
    requires
        forall|k: int| 0 <= k < sales.len() ==> (#[trigger] sales[k]).book_id != book,
    ensures
        book_units(sales, book) == 0,
{
    lemma_sum_bounds(sales, units_for_book(book), 0, 0);
}

/// Writes of authors and of reviews leave the totals as they are.
pub proof fn lemma_totals_beside_books(
    st: StoreView,
    authors: Seq<AuthorView>,
    reviews: Seq<ReviewView>,
)
    requires
        totals_follow_sales(st),
    ensures
        totals_follow_sales(StoreView { authors: authors, reviews: reviews, ..st }),
{
    let next = StoreView { authors: authors, reviews: reviews, ..st };
    assert forall|i: int| 0 <= i < next.books.len() implies total_is(
        (#[trigger] next.books[i]).total_sales,
        book_units(next.sales, next.books[i].id),
    ) by {
        assert(total_is(st.books[i].total_sales, book_units(st.sales, st.books[i].id)));
    }
}

/// The totals follow the sales after a book without a total, or with a
/// total of nothing, was added.
pub proof fn lemma_totals_with_book(st: StoreView, b: BookView)
    requires
        st.wf(),
        totals_follow_sales(st),
        !has_book(st.books, b.id),
        b.total_sales is None || b.total_sales == Some(0i64),
    ensures
        totals_follow_sales(with_book(st, b)),
{
    let next = with_book(st, b);
    assert forall|k: int| 0 <= k < st.sales.len() implies (#[trigger] st.sales[k]).book_id
        != b.id by {
        assert(has_book(st.books, st.sales[k].book_id));
    }
    lemma_unsold(st.sales, b.id);
    assert forall|i: int| 0 <= i < next.books.len() implies total_is(
        (#[trigger] next.books[i]).total_sales,
        book_units(next.sales, next.books[i].id),
    ) by {
        if i < st.books.len() {
            assert(next.books[i] == st.books[i]);
            assert(total_is(st.books[i].total_sales, book_units(st.sales, st.books[i].id)));
        }
    }
}

/// The totals follow the sales after a book was replaced by one with the
/// same identifier and total.
pub proof fn lemma_totals_with_book_at(st: StoreView, at: int, b: BookView)
    requires
        totals_follow_sales(st),
        0 <= at < st.books.len(),
        b.id == st.books[at].id,
        b.total_sales == st.books[at].total_sales,
    ensures
        totals_follow_sales(with_book_at(st, at, b)),
{
    let next = with_book_at(st, at, b);
    assert forall|i: int| 0 <= i < next.books.len() implies total_is(
        (#[trigger] next.books[i]).total_sales,
        book_units(next.sales, next.books[i].id),
    ) by {
        assert(total_is(st.books[i].total_sales, book_units(st.sales, st.books[i].id)));
        if i != at {
            assert(next.books[i] == st.books[i]);
        }
    }
}

/// The totals follow the sales after a book went with its sales.
pub proof fn lemma_totals_without_book(st: StoreView, id: ObjectId)
    requires
        totals_follow_sales(st),
    ensures
        totals_follow_sales(without_book(st, id)),
{
    let next = without_book(st, id);
    assert forall|i: int| 0 <= i < next.books.len() implies total_is(
        (#[trigger] next.books[i]).total_sales,
        book_units(next.sales, next.books[i].id),
    ) by {
        lemma_filter_member(st.books, book_is_not(id), i);
        let a = choose|a: int| 0 <= a < st.books.len() && #[trigger] st.books[a] == next.books[i];
        assert(total_is(st.books[a].total_sales, book_units(st.sales, st.books[a].id)));
        lemma_sum_filter_same(st.sales, sale_not_of(id), units_for_book(st.books[a].id));
    }
}

/// The totals follow the sales after books went with their sales.
pub proof fn lemma_totals_without_books(st: StoreView, ids: Seq<ObjectId>)
    requires
        totals_follow_sales(st),
    ensures
        totals_follow_sales(without_books(st, ids)),
    decreases ids.len(),
{
    if ids.len() > 0 {
        lemma_totals_without_book(st, ids[0]);
        lemma_totals_without_books(without_book(st, ids[0]), ids.drop_first());
    }
}

/// The totals follow the sales after an author went with its books.
pub proof fn lemma_totals_without_author(st: StoreView, id: ObjectId)
    requires
        totals_follow_sales(st),
    ensures
        totals_follow_sales(without_author(st, id)),
{
    let cleared = without_books(st, crate::changes::books_of(st.books, id));
    lemma_totals_without_books(st, crate::changes::books_of(st.books, id));
    if has_author(cleared.authors, id) {
        let at = crate::measures::author_position(cleared.authors, id);
        lemma_totals_beside_books(cleared, cleared.authors.remove(at), cleared.reviews);
    }
}

/// Whether the totals of all books but `a` and `b` follow the sales.
pub open spec fn totals_follow_but(st: StoreView, a: ObjectId, b: ObjectId) -> bool {
    forall|i: int|
        0 <= i < st.books.len() && (#[trigger] st.books[i]).id != a && st.books[i].id != b
            ==> total_is(st.books[i].total_sales, book_units(st.sales, st.books[i].id))
}

/// Once the total of a book is written anew, it follows the sales, and the
/// totals of the other books are as they were.
proof fn lemma_totals_recomputed(st: StoreView, a: ObjectId, b: ObjectId, book: ObjectId)
    requires
        st.wf(),
        totals_follow_but(st, a, b),
        book == a || book == b,
    ensures
        recomputed(st, book).wf(),
        recomputed(st, book).sales == st.sales,
        book == a ==> totals_follow_but(recomputed(st, book), b, b),
        book == b ==> totals_follow_but(recomputed(st, book), a, a),
{
    let next = recomputed(st, book);
    if has_book(st.books, book) {
        let at = book_position(st.books, book);
        lemma_recomputed_total(st, book);
        assert forall|i: int| 0 <= i < next.books.len() implies (#[trigger] next.books[i]).id
            == st.books[i].id && (i != at ==> next.books[i] == st.books[i]) by {}
        assert forall|i: int|
            0 <= i < next.books.len() && (#[trigger] next.books[i]).id == book implies i
            == at by {
            if i < at {
                assert(st.books[i].id != st.books[at].id);
            } else if at < i {
                assert(st.books[at].id != st.books[i].id);
            }
        }
    } else {
        assert forall|i: int| 0 <= i < st.books.len() implies (#[trigger] st.books[i]).id
            != book by {}
    }
}

/// After the totals of the books `a` and `b` were written anew, in this
/// order, all totals follow the sales, where those of the other books did.
proof fn lemma_totals_after_two(st: StoreView, a: ObjectId, b: ObjectId)
    requires
        st.wf(),
        totals_follow_but(st, a, b),
    ensures
        totals_follow_sales(recomputed(recomputed(st, a), b)),
{
    let first = recomputed(st, a);
    lemma_totals_recomputed(st, a, b, a);
    let second = recomputed(first, b);
    lemma_totals_recomputed(first, b, b, b);
    assert forall|i: int| 0 <= i < second.books.len() implies total_is(
        (#[trigger] second.books[i]).total_sales,
        book_units(second.sales, second.books[i].id),
    ) by {
        let id = second.books[i].id;
        if id == b {
            if has_book(first.books, b) {
                lemma_recomputed_total(first, b);
                let at = book_position(first.books, b);
                assert(second.books[i].id == first.books[i].id);
                if i < at {
                    assert(first.books[i].id != first.books[at].id);
                } else if at < i {
                    assert(first.books[at].id != first.books[i].id);
                }
            }
        } else if id == a {
            if has_book(st.books, a) {
                lemma_recomputed_total(st, a);
                let at = book_position(st.books, a);
                assert(first.books[i].id == st.books[i].id);
                assert(second.books[i].id == first.books[i].id);
                if i < at {
                    assert(st.books[i].id != st.books[at].id);
                } else if at < i {
                    assert(st.books[at].id != st.books[i].id);
                }
                if has_book(first.books, b) {
                    let bt = book_position(first.books, b);
                    assert(first.books[bt].id == b);
                    assert(second.books[i] == first.books[i]);
                }
            }
        } else {
            assert(second.books[i].id == first.books[i].id);
            assert(first.books[i].id == st.books[i].id);
            if has_book(st.books, a) {
                let at = book_position(st.books, a);
                assert(st.books[at].id == a);
                assert(first.books[i] == st.books[i]);
            }
            if has_book(first.books, b) {
                let bt = book_position(first.books, b);
                assert(first.books[bt].id == b);
                assert(second.books[i] == first.books[i]);
            }
        }
    }
}

/// A new sale of a book leaves what the other books sold as it was.
proof fn lemma_others_with_sale(st: StoreView, s: Sale)
    requires
        totals_follow_sales(st),
    ensures
        totals_follow_but(with_sale(st, s), s.book_id, s.book_id),
{
    let next = with_sale(st, s);
    assert forall|i: int|
        0 <= i < next.books.len() && (#[trigger] next.books[i]).id != s.book_id implies total_is(
        next.books[i].total_sales,
        book_units(next.sales, next.books[i].id),
    ) by {
        assert(total_is(st.books[i].total_sales, book_units(st.sales, st.books[i].id)));
        lemma_sum_push(st.sales, s, units_for_book(st.books[i].id));
    }
}

/// A changed sale leaves what the books sold that it neither had nor has
/// as it was.
proof fn lemma_others_with_sale_at(st: StoreView, at: int, s: Sale, a: ObjectId, b: ObjectId)
    requires
        0 <= at < st.sales.len(),
        totals_follow_but(st, a, b),
        st.sales[at].book_id == a || st.sales[at].book_id == b,
        s.book_id == a || s.book_id == b,
    ensures
        totals_follow_but(with_sale_at(st, at, s), a, b),
{
    let next = with_sale_at(st, at, s);
    assert forall|i: int|
        0 <= i < next.books.len() && (#[trigger] next.books[i]).id != a && next.books[i].id
            != b implies total_is(
        next.books[i].total_sales,
        book_units(next.sales, next.books[i].id),
    ) by {
        assert(total_is(st.books[i].total_sales, book_units(st.sales, st.books[i].id)));
        lemma_sum_update(st.sales, at, s, units_for_book(st.books[i].id));
    }
}

/// A sale that went leaves what the other books sold as it was.
proof fn lemma_others_without_sale_at(st: StoreView, at: int, a: ObjectId, b: ObjectId)
    requires
        0 <= at < st.sales.len(),
        totals_follow_but(st, a, b),
        st.sales[at].book_id == a || st.sales[at].book_id == b,
    ensures
        totals_follow_but(without_sale_at(st, at), a, b),
{
    let next = without_sale_at(st, at);
    assert forall|i: int|
        0 <= i < next.books.len() && (#[trigger] next.books[i]).id != a && next.books[i].id
            != b implies total_is(
        next.books[i].total_sales,
        book_units(next.sales, next.books[i].id),
    ) by {
        assert(total_is(st.books[i].total_sales, book_units(st.sales, st.books[i].id)));
        lemma_sum_remove(st.sales, at, units_for_book(st.books[i].id));
    }
}

/// The totals follow the sales after units were recorded for a book and a
/// year.
pub proof fn lemma_totals_after_record(
    st: StoreView,
    id: ObjectId,
    book: ObjectId,
    year: i32,
    units: i64,
)
    requires
        st.wf(),
        totals_follow_sales(st),
        crate::changes::sale_refusal(st, id, book, year, units) is None,
    ensures
        totals_follow_sales(sale_recorded(st, id, book, year, units)),
{
    if has_sale_for(st.sales, book, year) {
        let at = sale_slot(st.sales, book, year);
        let s = Sale { units: units, ..st.sales[at] };
        lemma_found_slot(st.sales, at, book, year);
        assert forall|i: int| 0 <= i < st.sales.len() && i != at implies !((
        #[trigger] st.sales[i]).book_id == s.book_id && st.sales[i].year == s.year) by {
            if i < at {
                assert(!(st.sales[i].book_id == st.sales[at].book_id && st.sales[i].year
                    == st.sales[at].year));
            } else {
                assert(!(st.sales[at].book_id == st.sales[i].book_id && st.sales[at].year
                    == st.sales[i].year));
            }
        }
        lemma_with_sale_at(st, at, s);
        lemma_others_with_sale_at(st, at, s, book, book);
        lemma_totals_all_after(with_sale_at(st, at, s), book);
    } else {
        let s = Sale { id: id, book_id: book, year: year, units: units };
        lemma_with_sale(st, s);
        lemma_others_with_sale(st, s);
        lemma_totals_all_after(with_sale(st, s), book);
    }
}

/// Once the total of the one book is written anew whose total may not
/// follow the sales, all totals follow.
pub proof fn lemma_totals_all_after(st: StoreView, book: ObjectId)
    requires
        st.wf(),
        totals_follow_but(st, book, book),
    ensures
        totals_follow_sales(recomputed(st, book)),
{
    let next = recomputed(st, book);
    lemma_totals_recomputed(st, book, book, book);
    if has_book(st.books, book) {
        lemma_recomputed_total(st, book);
        let at = book_position(st.books, book);
        assert forall|i: int| 0 <= i < next.books.len() implies total_is(
            (#[trigger] next.books[i]).total_sales,
            book_units(next.sales, next.books[i].id),
        ) by {
            assert(next.books[i].id == st.books[i].id);
            if i != at {
                assert(next.books[i] == st.books[i]);
                if i < at {
                    assert(st.books[i].id != st.books[at].id);
                } else {
                    assert(st.books[at].id != st.books[i].id);
                }
            }
        }
    } else {
        assert forall|i: int| 0 <= i < st.books.len() implies (#[trigger] st.books[i]).id
            != book by {}
    }
}

/// The totals follow the sales after a sale went.
pub proof fn lemma_totals_after_delete(st: StoreView, at: int)
    requires
        st.wf(),
        totals_follow_sales(st),
        0 <= at < st.sales.len(),
    ensures
        totals_follow_sales(sale_deleted(st, at)),
{
    let book = st.sales[at].book_id;
    lemma_without_sale_at(st, at);
    lemma_others_without_sale_at(st, at, book, book);
    lemma_totals_all_after(without_sale_at(st, at), book);
}

/// The totals follow the sales after a sale was changed.
pub proof fn lemma_totals_after_change(
    st: StoreView,
    id: ObjectId,
    book: ObjectId,
    year: i32,
    units: i64,
)
    requires
        st.wf(),
        totals_follow_sales(st),
        crate::changes::sale_change_refusal(st, id, book, year, units) is None,
    ensures
        totals_follow_sales(sale_changed(st, id, book, year, units)),
{
    if has_sale(st.sales, id) {
        let at = sale_position(st.sales, id);
        let had = st.sales[at].book_id;
        let changed = sales_changed(st, at, book, year, units);
        if sale_merges(st, at, book, year) {
            let other = sale_slot(st.sales, book, year);
            lemma_found_slot(st.sales, other, book, year);
            let removed = without_sale_at(st, at);
            lemma_without_sale_at(st, at);
            lemma_others_without_sale_at(st, at, had, book);
            let moved = if other < at {
                other
            } else {
                other - 1
            };
            assert(removed.sales[moved] == st.sales[other]);
            lemma_found_slot(removed.sales, moved, book, year);
            let s = Sale { units: units, ..removed.sales[moved] };
            assert forall|i: int| 0 <= i < removed.sales.len() && i != moved implies !((
            #[trigger] removed.sales[i]).book_id == s.book_id && removed.sales[i].year
                == s.year) by {
                if i < moved {
                    assert(!(removed.sales[i].book_id == removed.sales[moved].book_id
                        && removed.sales[i].year == removed.sales[moved].year));
                } else {
                    assert(!(removed.sales[moved].book_id == removed.sales[i].book_id
                        && removed.sales[moved].year == removed.sales[i].year));
                }
            }
            lemma_with_sale_at(removed, moved, s);
            lemma_others_with_sale_at(removed, moved, s, had, book);
        } else {
            let s = Sale { id: st.sales[at].id, book_id: book, year: year, units: units };
            assert forall|i: int| 0 <= i < st.sales.len() && i != at implies !((
            #[trigger] st.sales[i]).book_id == book && st.sales[i].year == year) by {
                if st.sales[at].book_id == book && st.sales[at].year == year {
                    if i < at {
                        assert(!(st.sales[i].book_id == st.sales[at].book_id && st.sales[i].year
                            == st.sales[at].year));
                    } else {
                        assert(!(st.sales[at].book_id == st.sales[i].book_id
                            && st.sales[at].year == st.sales[i].year));
                    }
                }
            }
            lemma_with_sale_at(st, at, s);
            lemma_others_with_sale_at(st, at, s, had, book);
        }
        lemma_totals_after_two(changed, had, book);
    } else {
        lemma_totals_all_after(st, book);
    }
}

} // verus!
