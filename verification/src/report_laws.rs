//! What holds of the reports of every store.

use crate::db::{
    ahead_count, ahead_in_year, authors_summary, book_year, in_top_5_of_year, name_order,
    rating_order, sales_order, sells_before, summary_row, summary_rows, top_rated, top_selling,
};
use crate::measures::book_units;
use crate::orders::YearOrder;
use crate::ranking::{
    comes_before, is_candidate, lemma_rank_in_top, lemma_top_counts_all, lemma_top_is_top,
    lemma_top_of_all, precedes, rank, top, RankOrder,
};
use crate::search_query::{match_count, matching_books, one_if_matches, title_order};
use crate::seqs::{
    count_where, lemma_count_listed, lemma_sum_by_positions, lemma_sum_same, one_where, positions,
};
use crate::store::StoreView;
use vstd::prelude::*;

verus! {

/// The books of the publication year `year` by units sold.
pub open spec fn year_order(st: StoreView, year: i32) -> Seq<YearOrder> {
    Seq::new(
        st.books.len(),
        |j: int|
            YearOrder {
                units: book_units(st.sales, st.books[j].id),
                in_year: book_year(st, j) == Some(year),
            },
    )
}

/// A book with a publication year is flagged as one of the five best
/// selling books of its year just when it is among the first five of the
/// books of that year by units sold, books that sold the same in the order
/// of the store.
pub proof fn lemma_flag_is_top_5_of_year(st: StoreView, i: int)
    requires
        st.wf(),
        0 <= i < st.books.len(),
        book_year(st, i) is Some,
    ensures
        in_top_5_of_year(st, i) <==> top(year_order(st, book_year(st, i)->0), 5).contains(
            i as usize,
        ),
{
    let keys = year_order(st, book_year(st, i)->0);
    let n = st.books.len();
    lemma_top_is_top(keys, 5);
    let picked = top(keys, 5);
    lemma_rank_in_top(keys, 5, picked, i);
    let f = ahead_in_year(st, i);
    let g = one_where(comes_before(keys, i));
    assert forall|k: int| 0 <= k < positions(n).len() implies f(#[trigger] positions(n)[k]) == g(
        positions(n)[k],
    ) by {
        let j = positions(n)[k];
        assert(j == k);
        assert(is_candidate(keys, j) == (book_year(st, j) == book_year(st, i)));
        assert(precedes(keys, j, i) == sells_before(st, j, i));
    }
    lemma_sum_same(positions(n), f, g);
    assert(ahead_count(st, i) == rank(keys, i));
}

/// A book without a publication date is not flagged.
pub proof fn lemma_no_date_no_flag(st: StoreView, i: int)
    requires
        0 <= i < st.books.len(),
        st.books[i].publication_date is None,
    ensures
        !in_top_5_of_year(st, i),
{
}

/// The number of the positions below `n`.
proof fn lemma_count_all(n: nat)
    ensures
        count_where(n, |j: int| true) == n,
{
    let test = |j: int| true;
    let found = positions(n);
    assert forall|j: int| 0 <= j < n && #[trigger] test(j) implies found.contains(j) by {
        assert(found[j] == j);
    }
    lemma_count_listed(n, test, found);
}

/// The summary of the authors has one row for each author.
pub proof fn lemma_summary_has_every_author(st: StoreView)
    requires
        st.authors.len() <= usize::MAX,
    ensures
        authors_summary(st).len() == st.authors.len(),
        forall|i: int|
            0 <= i < st.authors.len() ==> authors_summary(st).contains(
                #[trigger] summary_row(st, i),
            ),
{
    let keys = name_order(st);
    let n = st.authors.len();
    lemma_top_is_top(keys, n as int);
    let picked = top(keys, n as int);
    lemma_top_counts_all(keys, n as int, picked);
    lemma_count_all(n);
    let every = |j: int| true;
    let each = |j: int| is_candidate(keys, j);
    assert forall|k: int| 0 <= k < positions(n).len() implies one_where(every)(
        #[trigger] positions(n)[k],
    ) == one_where(each)(positions(n)[k]) by {
        assert(positions(n)[k] == k);
    }
    lemma_sum_same(positions(n), one_where(every), one_where(each));
    assert forall|i: int| 0 <= i < st.authors.len() implies authors_summary(st).contains(
        #[trigger] summary_row(st, i),
    ) by {
        assert(is_candidate(keys, i));
        lemma_top_of_all(keys, n as int, picked, i);
        let p = choose|p: int| 0 <= p < picked.len() && picked[p] == i as usize;
        assert(summary_rows(st, picked)[p] == summary_row(st, i));
    }
}

/// The list of the best rated books holds ten books at most, and the list
/// of the best selling books fifty.
pub proof fn lemma_report_lengths(st: StoreView)
    requires
        st.wf(),
    ensures
        top_rated(st).len() <= 10,
        top_selling(st).len() <= 50,
{
    lemma_top_is_top(rating_order(st), 10);
    lemma_top_is_top(sales_order(st), 50);
}

/// The search counts as many books as it lists over all its pages.
pub proof fn lemma_matches_are_counted(st: StoreView, words: Seq<Seq<char>>)
    requires
        st.wf(),
    ensures
        match_count(st, words) == matching_books(st, words).len(),
{
    let keys = title_order(st, words);
    let n = st.books.len();
    lemma_top_is_top(keys, n as int);
    let picked = matching_books(st, words);
    lemma_top_counts_all(keys, n as int, picked);
    let f = one_if_matches(words);
    lemma_sum_by_positions(st.books, f);
    let by_position = |j: int| f(st.books[j]);
    let each = one_where(|j: int| is_candidate(keys, j));
    assert forall|k: int| 0 <= k < positions(n).len() implies by_position(
        #[trigger] positions(n)[k],
    ) == each(positions(n)[k]) by {
        assert(positions(n)[k] == k);
    }
    lemma_sum_same(positions(n), by_position, each);
}

/// Where the totals follow the sales, the list of the best selling books
/// shows of a book the total that is written on it.
pub proof fn lemma_report_shows_total(st: StoreView, i: int)
    requires
        st.wf(),
        crate::totals::totals_follow_sales(st),
        0 <= i < st.books.len(),
    ensures
        crate::db::selling_row(st, i).book_total_sales == match st.books[i].total_sales {
            Some(t) => t,
            None => 0,
        },
{
    crate::changes::lemma_book_units_fit(st, st.books[i].id);
    assert(crate::totals::total_is(
        st.books[i].total_sales,
        book_units(st.sales, st.books[i].id),
    ));
}

/// The list of the best selling books never rises, and it falls at every
/// step where no two books sold the same.
pub proof fn lemma_best_selling_fall(st: StoreView)
    requires
        st.wf(),
    ensures
        forall|p: int, q: int|
            0 <= p < q < top_selling(st).len() ==> (#[trigger] top_selling(st)[p]).book_total_sales
                >= (#[trigger] top_selling(st)[q]).book_total_sales,
        (forall|i: int, j: int|
            0 <= i < j < st.books.len() && book_units(st.sales, (#[trigger] st.books[i]).id) > 0
                ==> book_units(st.sales, st.books[i].id) != book_units(
                st.sales,
                (#[trigger] st.books[j]).id,
            )) ==> forall|p: int, q: int|
            0 <= p < q < top_selling(st).len() ==> (#[trigger] top_selling(st)[p]).book_total_sales
                > (#[trigger] top_selling(st)[q]).book_total_sales,
{
    let keys = sales_order(st);
    lemma_top_is_top(keys, 50);
    let picked = top(keys, 50);
    let rows = top_selling(st);
    assert forall|p: int, q: int| 0 <= p < q < rows.len() implies (#[trigger] rows[p]).book_total_sales
        >= (#[trigger] rows[q]).book_total_sales && (picked[p] != picked[q]) by {
        let i = picked[p] as int;
        let j = picked[q] as int;
        assert(is_candidate(keys, picked[p] as int));
        assert(is_candidate(keys, picked[q] as int));
        assert(precedes(keys, picked[p] as int, picked[q] as int));
        crate::ranking::lemma_precedes_asymmetric(keys, i, j);
        crate::changes::lemma_book_units_fit(st, st.books[i].id);
        crate::changes::lemma_book_units_fit(st, st.books[j].id);
    }
    if forall|i: int, j: int|
        0 <= i < j < st.books.len() && book_units(st.sales, (#[trigger] st.books[i]).id) > 0
            ==> book_units(st.sales, st.books[i].id) != book_units(
            st.sales,
            (#[trigger] st.books[j]).id,
        ) {
        assert forall|p: int, q: int| 0 <= p < q < rows.len() implies (
        #[trigger] rows[p]).book_total_sales > (#[trigger] rows[q]).book_total_sales by {
            let i = picked[p] as int;
            let j = picked[q] as int;
            assert(is_candidate(keys, picked[p] as int));
            assert(is_candidate(keys, picked[q] as int));
            assert(precedes(keys, picked[p] as int, picked[q] as int));
            crate::ranking::lemma_precedes_asymmetric(keys, i, j);
            crate::changes::lemma_book_units_fit(st, st.books[i].id);
            crate::changes::lemma_book_units_fit(st, st.books[j].id);
            if i < j {
                assert(book_units(st.sales, st.books[i].id) != book_units(
                    st.sales,
                    st.books[j].id,
                ));
            } else {
                assert(book_units(st.sales, st.books[j].id) != book_units(
                    st.sales,
                    st.books[i].id,
                ));
            }
        }
    }
}

/// Every book of the list of the best rated books has a review, and is
/// shown with the exact mean of its scores; every book of the list of the
/// best selling books sold something.
pub proof fn lemma_listed_books_take_part(st: StoreView)
    requires
        st.wf(),
    ensures
        forall|p: int|
            0 <= p < top_rated(st).len() ==> crate::db::is_rated_row(
                st,
                #[trigger] top_rated(st)[p],
            ),
        forall|p: int|
            0 <= p < top_selling(st).len() ==> crate::db::is_selling_row(
                st,
                #[trigger] top_selling(st)[p],
            ) && top_selling(st)[p].book_total_sales > 0,
{
    let rated = rating_order(st);
    lemma_top_is_top(rated, 10);
    let best = top(rated, 10);
    assert forall|p: int| 0 <= p < top_rated(st).len() implies crate::db::is_rated_row(
        st,
        #[trigger] top_rated(st)[p],
    ) by {
        assert(is_candidate(rated, best[p] as int));
        assert(rated[best[p] as int].eligible());
        assert(top_rated(st)[p] == crate::db::rated_row(st, best[p] as int));
    }
    let sold = sales_order(st);
    lemma_top_is_top(sold, 50);
    let most = top(sold, 50);
    assert forall|p: int| 0 <= p < top_selling(st).len() implies crate::db::is_selling_row(
        st,
        #[trigger] top_selling(st)[p],
    ) && top_selling(st)[p].book_total_sales > 0 by {
        let i = most[p] as int;
        assert(is_candidate(sold, most[p] as int));
        assert(sold[i].eligible());
        assert(top_selling(st)[p] == crate::db::selling_row(st, i));
        crate::changes::lemma_book_units_fit(st, st.books[i].id);
    }
}

} // verus!
