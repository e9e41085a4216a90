use bookreview::models::{Author, Book, Review};
use bookreview::object_id::ObjectId;
use bookreview::store::{Store, StoreError, MAX_BOOKS, MAX_REVIEWS};

fn oid(kind: u8, n: u32) -> ObjectId {
    let b = n.to_be_bytes();
    ObjectId::from_bytes([kind, 0, 0, 0, 0, 0, 0, 0, b[0], b[1], b[2], b[3]])
}

fn author(n: u32, name: &str) -> Author {
    Author {
        id: oid(1, n),
        name: name.to_string(),
        date_of_birth: Some("1900-01-01".to_string()),
        country: Some("Chile".to_string()),
        description: None,
        image_path: None,
    }
}

fn book(n: u32, author: u32, date: Option<&str>) -> Book {
    Book {
        id: oid(2, n),
        author_id: oid(1, author),
        title: format!("Book {}", n),
        summary: Some("summary".to_string()),
        publication_date: date.map(|d| d.to_string()),
        total_sales: None,
    }
}

fn review(n: u32, book: u32, score: i32) -> Review {
    Review { id: oid(3, n), book_id: oid(2, book), text: "text".to_string(), score, up_votes: 0 }
}

fn stocked() -> Store {
    let mut store = Store::new();
    store.insert_author(author(1, "Ann")).unwrap();
    store.insert_author(author(2, "Bob")).unwrap();
    store.insert_book(book(1, 1, Some("2020-05-01"))).unwrap();
    store.insert_book(book(2, 1, None)).unwrap();
    store.insert_book(book(3, 2, Some("1999"))).unwrap();
    store.insert_review(review(1, 1, 5)).unwrap();
    store.insert_review(review(2, 2, 3)).unwrap();
    store.insert_review(review(3, 3, 1)).unwrap();
    store.record_sale(oid(4, 1), oid(2, 1), 2020, 100).unwrap();
    store.record_sale(oid(4, 2), oid(2, 2), 2020, 10).unwrap();
    store.record_sale(oid(4, 3), oid(2, 3), 2020, 1).unwrap();
    store
}

fn total_of(store: &Store, n: u32) -> Option<i64> {
    store.books().iter().find(|b| b.id == oid(2, n)).unwrap().total_sales
}

#[test]
fn new_store_is_empty() {
    let store = Store::new();
    assert!(store.authors().is_empty());
    assert!(store.books().is_empty());
    assert!(store.reviews().is_empty());
    assert!(store.sales().is_empty());
}

#[test]
fn limits_of_a_store() {
    assert_eq!(MAX_BOOKS, 2147483647);
    assert_eq!(MAX_REVIEWS, 2147483647);
}

#[test]
fn duplicate_identifiers_are_refused() {
    let mut store = stocked();
    assert_eq!(store.insert_author(author(1, "Other")), Err(StoreError::DuplicateId));
    assert_eq!(store.insert_book(book(1, 2, None)), Err(StoreError::DuplicateId));
    assert_eq!(store.insert_review(review(1, 2, 2)), Err(StoreError::DuplicateId));
    assert_eq!(store.record_sale(oid(4, 1), oid(2, 1), 2030, 5), Err(StoreError::DuplicateId));
    assert_eq!(store.authors().len(), 2);
    assert_eq!(store.authors()[0].name, "Ann");
    assert_eq!(store.books().len(), 3);
    assert_eq!(store.reviews().len(), 3);
    assert_eq!(store.sales().len(), 3);
}

#[test]
fn unknown_references_are_refused() {
    let mut store = stocked();
    assert_eq!(store.insert_book(book(9, 9, None)), Err(StoreError::UnknownAuthor));
    assert_eq!(store.insert_review(review(9, 9, 3)), Err(StoreError::UnknownBook));
    assert_eq!(store.record_sale(oid(4, 9), oid(2, 9), 2020, 1), Err(StoreError::UnknownBook));
    assert_eq!(
        store.update_book(&oid(2, 1), "T".to_string(), oid(1, 9), None, None),
        Err(StoreError::UnknownAuthor)
    );
    assert_eq!(
        store.update_review(&oid(3, 1), oid(2, 9), "t".to_string(), 3, 0),
        Err(StoreError::UnknownBook)
    );
    assert_eq!(store.update_sale(&oid(4, 1), oid(2, 9), 2020, 1), Err(StoreError::UnknownBook));
    assert_eq!(store.books()[0].title, "Book 1");
    assert_eq!(store.reviews()[0].book_id, oid(2, 1));
    assert_eq!(store.sales()[0].units, 100);
}

#[test]
fn publication_dates_without_a_year_are_refused() {
    let mut store = stocked();
    for bad in ["", "-2020-01-01", "20x0-01-01", "May 2020", "99999999999-01-01", " 2020"] {
        assert_eq!(
            store.insert_book(book(9, 1, Some(bad))),
            Err(StoreError::InvalidPublicationDate),
            "{:?}",
            bad
        );
        assert_eq!(
            store.update_book(&oid(2, 1), "T".to_string(), oid(1, 1), None, Some(bad.to_string())),
            Err(StoreError::InvalidPublicationDate)
        );
    }
    for good in ["2020", "2020-05-01", "0044-03-15", "2147483647-1-1", "7-"] {
        assert_eq!(store.insert_book(book(9, 1, Some(good))), Ok(()), "{:?}", good);
        store.delete_book(&oid(2, 9));
    }
    assert_eq!(store.books().len(), 3);
}

#[test]
fn reviews_out_of_range_are_refused() {
    let mut store = stocked();
    assert_eq!(store.insert_review(review(9, 1, 0)), Err(StoreError::InvalidReview));
    assert_eq!(store.insert_review(review(9, 1, 6)), Err(StoreError::InvalidReview));
    let mut negative = review(9, 1, 3);
    negative.up_votes = -1;
    assert_eq!(store.insert_review(negative), Err(StoreError::InvalidReview));
    assert_eq!(
        store.update_review(&oid(3, 1), oid(2, 1), "t".to_string(), 6, 0),
        Err(StoreError::InvalidReview)
    );
    assert_eq!(
        store.update_review(&oid(3, 1), oid(2, 1), "t".to_string(), 3, -1),
        Err(StoreError::InvalidReview)
    );
    assert_eq!(store.reviews().len(), 3);
    assert_eq!(store.reviews()[0].score, 5);
}

#[test]
fn negative_units_are_refused() {
    let mut store = stocked();
    assert_eq!(store.record_sale(oid(4, 9), oid(2, 1), 2021, -1), Err(StoreError::NegativeUnits));
    assert_eq!(store.update_sale(&oid(4, 1), oid(2, 1), 2020, -5), Err(StoreError::NegativeUnits));
    assert_eq!(store.sales().len(), 3);
    assert_eq!(store.sales()[0].units, 100);
}

#[test]
fn units_beyond_the_range_are_refused() {
    let mut store = stocked();
    assert_eq!(
        store.record_sale(oid(4, 9), oid(2, 1), 2021, i64::MAX - 110),
        Err(StoreError::TooManyUnits)
    );
    assert_eq!(store.record_sale(oid(4, 9), oid(2, 1), 2021, i64::MAX - 111), Ok(()));
    assert_eq!(total_of(&store, 1), Some(i64::MAX - 11));
    assert_eq!(store.record_sale(oid(4, 8), oid(2, 1), 2020, 101), Err(StoreError::TooManyUnits));
    assert_eq!(store.update_sale(&oid(4, 2), oid(2, 2), 2020, 11), Err(StoreError::TooManyUnits));
    assert_eq!(store.update_sale(&oid(4, 2), oid(2, 1), 2020, 111), Err(StoreError::TooManyUnits));
    assert_eq!(store.update_sale(&oid(4, 2), oid(2, 1), 2020, 110), Ok(Some(oid(2, 2))));
    assert_eq!(store.sales().len(), 3);
    assert_eq!(total_of(&store, 1), Some(i64::MAX - 1));
    assert_eq!(total_of(&store, 2), Some(0));
}

#[test]
fn author_update_keeps_what_the_form_leaves_out() {
    let mut store = stocked();
    assert!(store.update_author(&oid(1, 1), "Anna".to_string(), None, Some("writes".to_string()), None));
    let a = &store.authors()[0];
    assert_eq!(a.id, oid(1, 1));
    assert_eq!(a.name, "Anna");
    assert_eq!(a.country.as_deref(), Some("Chile"));
    assert_eq!(a.description.as_deref(), Some("writes"));
    assert_eq!(a.date_of_birth.as_deref(), Some("1900-01-01"));
    assert_eq!(store.authors()[1].name, "Bob");
    assert!(!store.update_author(&oid(1, 9), "Nobody".to_string(), None, None, None));
    assert_eq!(store.authors().len(), 2);
}

#[test]
fn book_update_keeps_what_the_form_leaves_out() {
    let mut store = stocked();
    assert_eq!(
        store.update_book(&oid(2, 1), "New".to_string(), oid(1, 2), None, Some("2021-01-01".to_string())),
        Ok(true)
    );
    let b = &store.books()[0];
    assert_eq!(b.title, "New");
    assert_eq!(b.author_id, oid(1, 2));
    assert_eq!(b.summary.as_deref(), Some("summary"));
    assert_eq!(b.publication_date.as_deref(), Some("2021-01-01"));
    assert_eq!(b.total_sales, Some(100));
    assert_eq!(store.update_book(&oid(2, 9), "X".to_string(), oid(1, 1), None, None), Ok(false));
    assert_eq!(store.books().len(), 3);
}

#[test]
fn review_update_returns_the_book_it_had() {
    let mut store = stocked();
    assert_eq!(
        store.update_review(&oid(3, 1), oid(2, 2), "moved".to_string(), 2, 7),
        Ok(Some(oid(2, 1)))
    );
    let r = &store.reviews()[0];
    assert_eq!(r.id, oid(3, 1));
    assert_eq!(r.book_id, oid(2, 2));
    assert_eq!(r.text, "moved");
    assert_eq!(r.score, 2);
    assert_eq!(r.up_votes, 7);
    assert_eq!(store.update_review(&oid(3, 9), oid(2, 2), "x".to_string(), 2, 7), Ok(None));
    assert_eq!(store.delete_review(&oid(3, 1)), Some(oid(2, 2)));
    assert_eq!(store.delete_review(&oid(3, 1)), None);
    assert_eq!(store.reviews().len(), 2);
    assert_eq!(store.reviews()[0].id, oid(3, 2));
}

#[test]
fn deleting_a_book_takes_its_reviews_and_sales() {
    let mut store = stocked();
    store.delete_book(&oid(2, 1));
    assert_eq!(store.books().iter().map(|b| b.id).collect::<Vec<_>>(), vec![oid(2, 2), oid(2, 3)]);
    assert_eq!(store.reviews().iter().map(|r| r.id).collect::<Vec<_>>(), vec![oid(3, 2), oid(3, 3)]);
    assert_eq!(store.sales().iter().map(|s| s.id).collect::<Vec<_>>(), vec![oid(4, 2), oid(4, 3)]);
    assert_eq!(store.authors().len(), 2);
    store.delete_book(&oid(2, 1));
    assert_eq!(store.books().len(), 2);
}

#[test]
fn deleting_an_author_takes_its_books_with_their_reviews_and_sales() {
    let mut store = stocked();
    assert_eq!(store.delete_author(&oid(1, 1)), vec![oid(2, 1), oid(2, 2)]);
    assert_eq!(store.authors().iter().map(|a| a.id).collect::<Vec<_>>(), vec![oid(1, 2)]);
    assert_eq!(store.books().iter().map(|b| b.id).collect::<Vec<_>>(), vec![oid(2, 3)]);
    assert_eq!(store.reviews().iter().map(|r| r.id).collect::<Vec<_>>(), vec![oid(3, 3)]);
    assert_eq!(store.sales().iter().map(|s| s.id).collect::<Vec<_>>(), vec![oid(4, 3)]);
    assert!(store.delete_author(&oid(1, 1)).is_empty());
    assert!(store.delete_author(&oid(1, 9)).is_empty());
    assert_eq!(store.authors().len(), 1);
}

#[test]
fn total_follows_the_sales_of_a_book() {
    let mut store = stocked();
    assert_eq!(total_of(&store, 1), Some(100));
    store.record_sale(oid(4, 4), oid(2, 1), 2021, 50).unwrap();
    assert_eq!(total_of(&store, 1), Some(150));
    assert_eq!(store.delete_sale(&oid(4, 4)), Some(oid(2, 1)));
    assert_eq!(total_of(&store, 1), Some(100));
    assert_eq!(store.delete_sale(&oid(4, 4)), None);
    assert_eq!(total_of(&store, 1), Some(100));
    assert_eq!(store.delete_sale(&oid(4, 1)), Some(oid(2, 1)));
    assert_eq!(total_of(&store, 1), Some(0));
}

#[test]
fn a_second_sale_for_a_year_replaces_the_units() {
    let mut store = stocked();
    store.record_sale(oid(4, 9), oid(2, 1), 2020, 40).unwrap();
    assert_eq!(store.sales().len(), 3);
    assert_eq!(store.sales()[0].id, oid(4, 1));
    assert_eq!(store.sales()[0].units, 40);
    assert_eq!(total_of(&store, 1), Some(40));
}

#[test]
fn moving_a_sale_rewrites_both_totals() {
    let mut store = stocked();
    assert_eq!(store.update_sale(&oid(4, 1), oid(2, 2), 2021, 7), Ok(Some(oid(2, 1))));
    assert_eq!(store.sales().len(), 3);
    assert_eq!(store.sales()[0].id, oid(4, 1));
    assert_eq!(store.sales()[0].book_id, oid(2, 2));
    assert_eq!(store.sales()[0].year, 2021);
    assert_eq!(total_of(&store, 1), Some(0));
    assert_eq!(total_of(&store, 2), Some(17));
}

#[test]
fn moving_a_sale_onto_another_merges_them() {
    let mut store = stocked();
    assert_eq!(store.update_sale(&oid(4, 1), oid(2, 2), 2020, 7), Ok(Some(oid(2, 1))));
    assert_eq!(store.sales().iter().map(|s| s.id).collect::<Vec<_>>(), vec![oid(4, 2), oid(4, 3)]);
    assert_eq!(store.sales()[0].units, 7);
    assert_eq!(total_of(&store, 1), Some(0));
    assert_eq!(total_of(&store, 2), Some(7));
    assert_eq!(store.update_sale(&oid(4, 3), oid(2, 2), 2020, 9), Ok(Some(oid(2, 3))));
    assert_eq!(store.sales().iter().map(|s| s.id).collect::<Vec<_>>(), vec![oid(4, 2)]);
    assert_eq!(store.sales()[0].units, 9);
    assert_eq!(total_of(&store, 3), Some(0));
}

#[test]
fn changing_the_units_of_a_sale_in_place() {
    let mut store = stocked();
    assert_eq!(store.update_sale(&oid(4, 1), oid(2, 1), 2020, 1), Ok(Some(oid(2, 1))));
    assert_eq!(store.sales()[0].units, 1);
    assert_eq!(total_of(&store, 1), Some(1));
    assert_eq!(store.update_sale(&oid(4, 9), oid(2, 2), 2020, 5), Ok(None));
    assert_eq!(store.sales().len(), 3);
    assert_eq!(total_of(&store, 2), Some(10));
}

#[test]
fn holds_tells_what_the_store_has() {
    let store = stocked();
    assert!(store.holds_author(&oid(1, 1)));
    assert!(!store.holds_author(&oid(1, 9)));
    assert!(store.holds_book(&oid(2, 3)));
    assert!(!store.holds_book(&oid(1, 1)));
}
