use bookreview::cache::NoopCache;
use bookreview::db::AppState;
use bookreview::models::Average;
use bookreview::object_id::ObjectId;
use bookreview::routes::authors::AuthorForm;
use bookreview::routes::books::BookForm;
use bookreview::routes::reviews::ReviewForm;
use bookreview::routes::sales::SaleForm;
use bookreview::routes::{authors, books, reviews, sales};
use bookreview::search::NullSearchEngine;
use bookreview::store::Store;

type State = AppState<NoopCache, NullSearchEngine>;

fn oid(kind: u8, n: u32) -> ObjectId {
    let b = n.to_be_bytes();
    ObjectId::from_bytes([kind, 0, 0, 0, 0, 0, 0, 0, b[0], b[1], b[2], b[3]])
}

fn fresh() -> State {
    AppState::new(Store::new(), NoopCache, NullSearchEngine)
}

fn add_author(state: &mut State, n: u32, name: &str) -> ObjectId {
    let id = oid(1, n);
    let form = AuthorForm {
        name: name.to_string(),
        country: None,
        description: None,
        date_of_birth: None,
    };
    authors::create_with_id(state, id, form).unwrap();
    id
}

fn add_book(state: &mut State, n: u32, author: ObjectId, title: &str, date: Option<&str>) -> ObjectId {
    let id = oid(2, n);
    let form = BookForm {
        title: title.to_string(),
        author_id: author.to_hex(),
        summary: None,
        publication_date: date.map(|d| d.to_string()),
        total_sales: None,
    };
    books::create_with_id(state, id, form).unwrap();
    id
}

fn add_review(state: &mut State, n: u32, book: ObjectId, score: i32) -> ObjectId {
    let id = oid(3, n);
    let form = ReviewForm {
        book_id: book.to_hex(),
        text: format!("review {}", n),
        score,
        up_votes: Some(n as i64),
    };
    reviews::create_with_id(state, id, form).unwrap();
    id
}

fn add_sale(state: &mut State, n: u32, book: ObjectId, year: i32, units: i64) -> ObjectId {
    let id = oid(4, n);
    let form = SaleForm { book_id: book.to_hex(), year, units };
    sales::create_with_id(state, id, form).unwrap();
    id
}

#[test]
fn empty_store_has_empty_reports() {
    let state = fresh();
    assert!(state.get_authors_summary().is_empty());
    assert!(state.get_top_rated_books().is_empty());
    assert!(state.get_top_selling_books().is_empty());
}

#[test]
fn author_without_books_has_a_summary_of_zeros() {
    let mut state = fresh();
    let lonely = add_author(&mut state, 1, "Lonely");
    let busy = add_author(&mut state, 2, "Busy");
    let book = add_book(&mut state, 1, busy, "A Book", Some("2020-01-01"));
    add_review(&mut state, 1, book, 4);
    add_sale(&mut state, 1, book, 2020, 7);
    let summary = state.get_authors_summary();
    assert_eq!(summary.len(), 2);
    let row = summary.iter().find(|r| r.author_id == lonely).unwrap();
    assert_eq!(row.name, "Lonely");
    assert_eq!(row.published_books, 0);
    assert_eq!(row.average_score, Average { total: 0, count: 0 });
    assert_eq!(row.total_sales, 0);
}

#[test]
fn summary_counts_books_reviews_and_sales_of_each_author() {
    let mut state = fresh();
    let a = add_author(&mut state, 1, "Zed");
    let b = add_author(&mut state, 2, "Amy");
    let a1 = add_book(&mut state, 1, a, "One", Some("2019-03-04"));
    let a2 = add_book(&mut state, 2, a, "Two", None);
    let b1 = add_book(&mut state, 3, b, "Three", Some("2021-01-01"));
    add_review(&mut state, 1, a1, 5);
    add_review(&mut state, 2, a1, 2);
    add_review(&mut state, 3, a2, 4);
    add_review(&mut state, 4, b1, 1);
    add_sale(&mut state, 1, a1, 2019, 10);
    add_sale(&mut state, 2, a1, 2020, 20);
    add_sale(&mut state, 3, a2, 2020, 5);
    add_sale(&mut state, 4, b1, 2021, 3);
    let summary = state.get_authors_summary();
    assert_eq!(summary.len(), 2);
    assert_eq!(summary[0].name, "Amy");
    assert_eq!(summary[0].author_id, b);
    assert_eq!(summary[0].published_books, 1);
    assert_eq!(summary[0].average_score, Average { total: 1, count: 1 });
    assert_eq!(summary[0].total_sales, 3);
    assert_eq!(summary[1].name, "Zed");
    assert_eq!(summary[1].author_id, a);
    assert_eq!(summary[1].published_books, 2);
    assert_eq!(summary[1].average_score, Average { total: 11, count: 3 });
    assert_eq!(summary[1].total_sales, 35);
}

#[test]
fn summary_is_sorted_by_name_and_keeps_store_order_among_equal_names() {
    let mut state = fresh();
    let first = add_author(&mut state, 1, "Same");
    add_author(&mut state, 2, "Zoe");
    let second = add_author(&mut state, 3, "Same");
    add_author(&mut state, 4, "Al");
    add_author(&mut state, 5, "Alan");
    add_author(&mut state, 6, "alan");
    let names: Vec<String> = state.get_authors_summary().iter().map(|r| r.name.clone()).collect();
    assert_eq!(names, vec!["Al", "Alan", "Same", "Same", "Zoe", "alan"]);
    let summary = state.get_authors_summary();
    assert_eq!(summary[2].author_id, first);
    assert_eq!(summary[3].author_id, second);
}

#[test]
fn books_without_reviews_are_not_among_the_top_rated() {
    let mut state = fresh();
    let a = add_author(&mut state, 1, "Ann");
    let rated = add_book(&mut state, 1, a, "Rated", None);
    let unrated = add_book(&mut state, 2, a, "Unrated", None);
    add_review(&mut state, 1, rated, 3);
    let top = state.get_top_rated_books();
    assert_eq!(top.len(), 1);
    assert_eq!(top[0].book_id, rated);
    assert!(top.iter().all(|r| r.book_id != unrated));
}

#[test]
fn top_rated_mean_is_the_exact_mean_of_the_scores() {
    let mut state = fresh();
    let a = add_author(&mut state, 1, "Ann");
    let book = add_book(&mut state, 1, a, "Thirds", None);
    add_review(&mut state, 1, book, 5);
    add_review(&mut state, 2, book, 4);
    add_review(&mut state, 3, book, 4);
    let top = state.get_top_rated_books();
    assert_eq!(top.len(), 1);
    assert_eq!(top[0].title, "Thirds");
    assert_eq!(top[0].author_name, "Ann");
    assert_eq!(top[0].average_score, Average { total: 13, count: 3 });
    assert_eq!(top[0].total_reviews, 3);
}

#[test]
fn top_rated_orders_by_mean_then_by_number_of_reviews() {
    let mut state = fresh();
    let a = add_author(&mut state, 1, "Ann");
    let low = add_book(&mut state, 1, a, "Low", None);
    let few = add_book(&mut state, 2, a, "Few", None);
    let many = add_book(&mut state, 3, a, "Many", None);
    let best = add_book(&mut state, 4, a, "Best", None);
    add_review(&mut state, 1, low, 2);
    add_review(&mut state, 2, few, 4);
    add_review(&mut state, 3, many, 4);
    add_review(&mut state, 4, many, 4);
    add_review(&mut state, 5, best, 5);
    add_review(&mut state, 6, best, 4);
    let top = state.get_top_rated_books();
    let ids: Vec<ObjectId> = top.iter().map(|r| r.book_id).collect();
    assert_eq!(ids, vec![best, many, few, low]);
}

#[test]
fn top_rated_keeps_ten_books() {
    let mut state = fresh();
    let a = add_author(&mut state, 1, "Ann");
    for n in 0..12u32 {
        let book = add_book(&mut state, n, a, &format!("Book {}", n), None);
        add_review(&mut state, n, book, if n == 11 { 5 } else { 3 });
    }
    let top = state.get_top_rated_books();
    assert_eq!(top.len(), 10);
    assert_eq!(top[0].book_id, oid(2, 11));
    assert_eq!(top[1].book_id, oid(2, 0));
    assert_eq!(top[9].book_id, oid(2, 8));
}

#[test]
fn top_rated_shows_the_first_highest_and_the_first_lowest_review() {
    let mut state = fresh();
    let a = add_author(&mut state, 1, "Ann");
    let book = add_book(&mut state, 1, a, "Mixed", None);
    add_review(&mut state, 1, book, 3);
    add_review(&mut state, 2, book, 5);
    add_review(&mut state, 3, book, 1);
    add_review(&mut state, 4, book, 5);
    add_review(&mut state, 5, book, 1);
    let top = state.get_top_rated_books();
    let high = top[0].highest_rated_review.as_ref().unwrap();
    let low = top[0].lowest_rated_review.as_ref().unwrap();
    assert_eq!(high.score, 5);
    assert_eq!(high.text, "review 2");
    assert_eq!(high.up_votes, 2);
    assert_eq!(low.score, 1);
    assert_eq!(low.text, "review 3");
    assert_eq!(low.up_votes, 3);
}

#[test]
fn top_selling_leaves_out_books_that_sold_nothing_and_never_rises() {
    let mut state = fresh();
    let a = add_author(&mut state, 1, "Ann");
    let none = add_book(&mut state, 1, a, "None", Some("2020-01-01"));
    let zero = add_book(&mut state, 2, a, "Zero", Some("2020-01-01"));
    let some = add_book(&mut state, 3, a, "Some", Some("2020-01-01"));
    let most = add_book(&mut state, 4, a, "Most", Some("2020-01-01"));
    let tie = add_book(&mut state, 5, a, "Tie", None);
    add_sale(&mut state, 1, zero, 2020, 0);
    add_sale(&mut state, 2, some, 2020, 10);
    add_sale(&mut state, 3, most, 2020, 30);
    add_sale(&mut state, 4, most, 2021, 5);
    add_sale(&mut state, 5, tie, 2020, 10);
    let top = state.get_top_selling_books();
    let ids: Vec<ObjectId> = top.iter().map(|r| r.book_id).collect();
    assert_eq!(ids, vec![most, some, tie]);
    assert!(top.iter().all(|r| r.book_id != none && r.book_id != zero));
    assert!(top.iter().all(|r| r.book_total_sales > 0));
    assert!(top.windows(2).all(|w| w[0].book_total_sales >= w[1].book_total_sales));
    assert_eq!(top[0].book_total_sales, 35);
    assert_eq!(top[0].author_total_sales, 55);
    assert_eq!(top[0].author_name, "Ann");
    assert_eq!(top[0].publication_date.as_deref(), Some("2020-01-01"));
}

#[test]
fn top_selling_keeps_fifty_books() {
    let mut state = fresh();
    let a = add_author(&mut state, 1, "Ann");
    for n in 0..55u32 {
        let book = add_book(&mut state, n, a, &format!("Book {}", n), None);
        add_sale(&mut state, n, book, 2020, 100 + n as i64);
    }
    let top = state.get_top_selling_books();
    assert_eq!(top.len(), 50);
    assert_eq!(top[0].book_total_sales, 154);
    assert_eq!(top[49].book_total_sales, 105);
    assert!(top.windows(2).all(|w| w[0].book_total_sales > w[1].book_total_sales));
}

#[test]
fn top_five_of_a_year_are_flagged_and_books_without_date_are_not() {
    let mut state = fresh();
    let a = add_author(&mut state, 1, "Ann");
    for n in 0..7u32 {
        let book = add_book(&mut state, n, a, &format!("Y{}", n), Some("2020-06-01"));
        add_sale(&mut state, n, book, 2020, 10 * (n as i64 + 1));
    }
    let other = add_book(&mut state, 10, a, "Other year", Some("2021-02-02"));
    add_sale(&mut state, 10, other, 2021, 1);
    let undated = add_book(&mut state, 11, a, "Undated", None);
    add_sale(&mut state, 11, undated, 2021, 1000);
    let top = state.get_top_selling_books();
    assert_eq!(top.len(), 9);
    for row in top.iter() {
        let expected = if row.book_id == undated {
            false
        } else if row.book_id == other {
            true
        } else {
            row.book_total_sales >= 30
        };
        assert_eq!(row.was_top_5_in_publication_year, expected, "{}", row.title);
    }
}

#[test]
fn equal_sales_in_a_year_rank_in_store_order() {
    let mut state = fresh();
    let a = add_author(&mut state, 1, "Ann");
    for n in 0..6u32 {
        let book = add_book(&mut state, n, a, &format!("Same {}", n), Some("1999-12-31"));
        add_sale(&mut state, n, book, 2000, 5);
    }
    let top = state.get_top_selling_books();
    assert_eq!(top.len(), 6);
    for (n, row) in top.iter().enumerate() {
        assert_eq!(row.book_id, oid(2, n as u32));
        assert_eq!(row.was_top_5_in_publication_year, n < 5);
    }
}

#[test]
fn sales_and_reviews_of_one_book_add_up() {
    let mut state = fresh();
    let a = add_author(&mut state, 1, "A");
    let b1 = add_book(&mut state, 1, a, "B1", Some("2020-05-01"));
    add_sale(&mut state, 1, b1, 2020, 100);
    add_sale(&mut state, 2, b1, 2021, 50);
    let book = state.db().books().iter().find(|b| b.id == b1).unwrap();
    assert_eq!(book.total_sales, Some(150));
    add_review(&mut state, 1, b1, 5);
    add_review(&mut state, 2, b1, 3);
    let top = state.get_top_rated_books();
    assert_eq!(top.len(), 1);
    assert_eq!(top[0].average_score, Average { total: 8, count: 2 });
    let mean = top[0].average_score.total as f64 / top[0].average_score.count as f64;
    assert_eq!(mean, 4.0);
    assert_eq!(top[0].highest_rated_review.as_ref().unwrap().score, 5);
    assert_eq!(top[0].lowest_rated_review.as_ref().unwrap().score, 3);
    let selling = state.get_top_selling_books();
    assert_eq!(selling[0].book_total_sales, 150);
    assert!(selling[0].was_top_5_in_publication_year);
}
