use bookreview::cache::NoopCache;
use bookreview::db::AppState;
use bookreview::indexing::IndexChange;
use bookreview::models::{BookSearchDoc, ReviewSearchDoc};
use bookreview::object_id::ObjectId;
use bookreview::routes::authors::AuthorForm;
use bookreview::routes::books::BookForm;
use bookreview::routes::reviews::ReviewForm;
use bookreview::routes::sales::SaleForm;
use bookreview::routes::{authors, books, reviews, sales};
use bookreview::search::{SearchEngine, SearchHit};
use bookreview::store::{Store, StoreError};
use bookreview::text::number;

struct Recorder {
    log: Vec<String>,
}

impl SearchEngine for Recorder {
    fn upsert_book(&mut self, doc: &BookSearchDoc) {
        self.log.push(format!(
            "book {} {:?} by {:?} {:?} {:?}",
            doc.book_id, doc.title, doc.author_name, doc.summary, doc.publication_date
        ));
    }

    fn delete_book(&mut self, book_id: &str) {
        self.log.push(format!("no book {}", book_id));
    }

    fn upsert_review(&mut self, doc: &ReviewSearchDoc) {
        self.log.push(format!(
            "review {} of {} {:?} {}",
            doc.review_id, doc.book_id, doc.text, doc.score
        ));
    }

    fn delete_review(&mut self, review_id: &str) {
        self.log.push(format!("no review {}", review_id));
    }

    fn search(&self, q: &str, limit: usize) -> Vec<SearchHit> {
        self.log
            .iter()
            .filter(|line| line.contains(q))
            .take(limit)
            .map(|line| SearchHit {
                id: line.clone(),
                kind: "book".to_string(),
                score_milli: 1000,
                highlight: None,
            })
            .collect()
    }
}

type State = AppState<NoopCache, Recorder>;

fn oid(kind: u8, n: u32) -> ObjectId {
    let b = n.to_be_bytes();
    ObjectId::from_bytes([kind, 0, 0, 0, 0, 0, 0, 0, b[0], b[1], b[2], b[3]])
}

fn stocked() -> State {
    let mut state =
        AppState::new(Store::new(), NoopCache, Recorder { log: Vec::new() });
    authors::create_with_id(
        &mut state,
        oid(1, 1),
        AuthorForm { name: "Ann".to_string(), country: None, description: None, date_of_birth: None },
    )
    .unwrap();
    state
}

fn book_form(title: &str) -> BookForm {
    BookForm {
        title: title.to_string(),
        author_id: oid(1, 1).to_hex(),
        summary: Some("short".to_string()),
        publication_date: None,
        total_sales: None,
    }
}

#[test]
fn the_index_hears_of_every_write_of_a_book_or_review() {
    let mut state = stocked();
    let b = oid(2, 1).to_hex();
    let r = oid(3, 1).to_hex();
    assert!(state.search().log.is_empty());
    books::create_with_id(&mut state, oid(2, 1), book_form("First")).unwrap();
    books::update(&mut state, &b, book_form("Second")).unwrap();
    reviews::create_with_id(
        &mut state,
        oid(3, 1),
        ReviewForm { book_id: b.clone(), text: "good".to_string(), score: 9, up_votes: None },
    )
    .unwrap();
    reviews::update(
        &mut state,
        &r,
        ReviewForm { book_id: b.clone(), text: "bad".to_string(), score: 0, up_votes: None },
    )
    .unwrap();
    authors::update(
        &mut state,
        &oid(1, 1).to_hex(),
        AuthorForm { name: "Anne".to_string(), country: None, description: None, date_of_birth: None },
    )
    .unwrap();
    reviews::delete(&mut state, &r).unwrap();
    books::delete(&mut state, &b).unwrap();
    assert_eq!(
        state.search().log,
        vec![
            format!("book {} \"First\" by \"Ann\" Some(\"short\") None", b),
            format!("book {} \"Second\" by \"Ann\" Some(\"short\") None", b),
            format!("review {} of {} \"good\" 5", r, b),
            format!("review {} of {} \"bad\" 1", r, b),
            format!("book {} \"Second\" by \"Anne\" Some(\"short\") None", b),
            format!("no review {}", r),
            format!("no book {}", b),
        ]
    );
}

#[test]
fn the_index_hears_of_the_books_that_go_with_their_author() {
    let mut state = stocked();
    books::create_with_id(&mut state, oid(2, 1), book_form("First")).unwrap();
    books::create_with_id(&mut state, oid(2, 2), book_form("Second")).unwrap();
    let heard = state.search().log.len();
    authors::delete_author(&mut state, &oid(1, 1).to_hex()).unwrap();
    assert_eq!(
        state.search().log[heard..],
        vec![format!("no book {}", oid(2, 1).to_hex()), format!("no book {}", oid(2, 2).to_hex())]
    );
}

#[test]
fn refused_writes_and_sales_do_not_reach_the_index() {
    let mut state = stocked();
    books::create_with_id(&mut state, oid(2, 1), book_form("First")).unwrap();
    let heard = state.search().log.len();
    let mut orphan = book_form("Orphan");
    orphan.author_id = oid(1, 9).to_hex();
    assert_eq!(books::create_with_id(&mut state, oid(2, 2), orphan), Err(StoreError::UnknownAuthor));
    let mut unnamed = book_form("Unnamed");
    unnamed.author_id = "nobody".to_string();
    assert_eq!(books::create_with_id(&mut state, oid(2, 2), unnamed), Err(StoreError::InvalidId));
    assert_eq!(books::update(&mut state, "nothing", book_form("X")), Err(StoreError::InvalidId));
    assert_eq!(books::update(&mut state, &oid(2, 9).to_hex(), book_form("X")), Ok(false));
    assert_eq!(books::delete(&mut state, "nothing"), Err(StoreError::InvalidId));
    assert_eq!(reviews::delete(&mut state, "nothing"), Err(StoreError::InvalidId));
    assert_eq!(sales::delete(&mut state, "nothing"), Err(StoreError::InvalidId));
    assert_eq!(authors::delete_author(&mut state, "nothing"), Err(StoreError::InvalidId));
    assert_eq!(
        reviews::create_with_id(
            &mut state,
            oid(3, 1),
            ReviewForm { book_id: oid(2, 9).to_hex(), text: "t".to_string(), score: 3, up_votes: None }
        ),
        Err(StoreError::UnknownBook)
    );
    sales::create_with_id(
        &mut state,
        oid(4, 1),
        SaleForm { book_id: oid(2, 1).to_hex(), year: 2000, units: 3 },
    )
    .unwrap();
    assert_eq!(
        sales::create_with_id(&mut state, oid(4, 2), SaleForm { book_id: "x".to_string(), year: 2000, units: 3 }),
        Err(StoreError::InvalidId)
    );
    assert_eq!(
        sales::update(&mut state, &oid(4, 1).to_hex(), SaleForm { book_id: oid(2, 1).to_hex(), year: 2001, units: -1 }),
        Err(StoreError::NegativeUnits)
    );
    assert_eq!(sales::delete(&mut state, &oid(4, 1).to_hex()), Ok(Some(oid(2, 1))));
    assert_eq!(sales::delete(&mut state, &oid(4, 1).to_hex()), Ok(None));
    assert_eq!(state.search().log.len(), heard);
    assert_eq!(state.db().books().len(), 1);
    assert_eq!(state.db().books()[0].total_sales, Some(0));
}

#[test]
fn whole_numbers_in_decimal() {
    let text = |n: i64| number(n).into_iter().collect::<String>();
    assert_eq!(text(0), "0");
    assert_eq!(text(42), "42");
    assert_eq!(text(-7), "-7");
    assert_eq!(text(i64::MAX), "9223372036854775807");
    assert_eq!(text(i64::MIN), "-9223372036854775808");
    let words: Vec<Vec<char>> = vec!["a".chars().collect()];
    assert_eq!(State::key_search(&words, -1, 0), "search:books:a:-1:0");
}

#[test]
fn documents_are_created_under_new_identifiers() {
    let mut state = stocked();
    let author = authors::create(
        &mut state,
        AuthorForm { name: "Bob".to_string(), country: None, description: None, date_of_birth: None },
    )
    .unwrap();
    let other = authors::create(
        &mut state,
        AuthorForm { name: "Cy".to_string(), country: None, description: None, date_of_birth: None },
    )
    .unwrap();
    assert_ne!(author, other);
    assert_eq!(state.db().authors().len(), 3);
    assert_eq!(state.db().authors()[1].id, author);
    assert_eq!(state.db().authors()[1].name, "Bob");
    let mut form = book_form("Made");
    form.author_id = author.to_hex();
    let book = books::create(&mut state, form).unwrap();
    assert_eq!(state.db().books()[0].id, book);
    assert_eq!(state.db().books()[0].author_id, author);
    assert_eq!(state.db().books()[0].total_sales, None);
    let review = reviews::create(
        &mut state,
        ReviewForm { book_id: book.to_hex(), text: "fine".to_string(), score: 4, up_votes: Some(2) },
    )
    .unwrap();
    assert_eq!(state.db().reviews()[0].id, review);
    assert_eq!(state.db().reviews()[0].up_votes, 2);
    sales::create(&mut state, SaleForm { book_id: book.to_hex(), year: 2020, units: 8 }).unwrap();
    sales::create(&mut state, SaleForm { book_id: book.to_hex(), year: 2021, units: 1 }).unwrap();
    sales::create(&mut state, SaleForm { book_id: book.to_hex(), year: 2020, units: 5 }).unwrap();
    assert_eq!(state.db().sales().len(), 2);
    assert_ne!(state.db().sales()[0].id, state.db().sales()[1].id);
    assert_eq!(state.db().books()[0].total_sales, Some(6));
    assert_eq!(
        books::create(&mut state, book_form_of("nobody")),
        Err(StoreError::InvalidId)
    );
    assert_eq!(
        reviews::create(
            &mut state,
            ReviewForm { book_id: oid(2, 9).to_hex(), text: "t".to_string(), score: 3, up_votes: None }
        ),
        Err(StoreError::UnknownBook)
    );
    assert_eq!(ObjectId::new().to_hex().len(), 24);
    assert_ne!(ObjectId::new(), ObjectId::new());
}

fn book_form_of(author: &str) -> BookForm {
    let mut form = book_form("Of");
    form.author_id = author.to_string();
    form
}

#[test]
fn the_index_is_told_of_documents_as_the_store_holds_them() {
    let mut state = stocked();
    books::create_with_id(&mut state, oid(2, 1), book_form("First")).unwrap();
    reviews::create_with_id(
        &mut state,
        oid(3, 1),
        ReviewForm { book_id: oid(2, 1).to_hex(), text: "good".to_string(), score: 4, up_votes: None },
    )
    .unwrap();
    match state.change_of_book(&oid(2, 1)) {
        IndexChange::PutBook(doc) => {
            assert_eq!(doc.book_id, oid(2, 1).to_hex());
            assert_eq!(doc.title, "First");
            assert_eq!(doc.author_name, "Ann");
            assert_eq!(doc.summary.as_deref(), Some("short"));
            assert_eq!(doc.publication_date, None);
        }
        other => panic!("{:?}", other),
    }
    match state.change_of_book(&oid(2, 9)) {
        IndexChange::DropBook(id) => assert_eq!(id, oid(2, 9).to_hex()),
        other => panic!("{:?}", other),
    }
    match state.change_of_review(&oid(3, 1)) {
        IndexChange::PutReview(doc) => {
            assert_eq!(doc.review_id, oid(3, 1).to_hex());
            assert_eq!(doc.book_id, oid(2, 1).to_hex());
            assert_eq!(doc.text, "good");
            assert_eq!(doc.score, 4);
        }
        other => panic!("{:?}", other),
    }
    match state.change_of_review(&oid(3, 9)) {
        IndexChange::DropReview(id) => assert_eq!(id, oid(3, 9).to_hex()),
        other => panic!("{:?}", other),
    }
    let heard = state.search().log.len();
    state.tell_index(&IndexChange::DropReview("gone".to_string()));
    assert_eq!(state.search().log[heard..], vec!["no review gone".to_string()]);
}

#[test]
fn the_books_of_an_author_are_handed_over_in_the_order_of_the_store() {
    let mut state = stocked();
    authors::create_with_id(
        &mut state,
        oid(1, 2),
        AuthorForm { name: "Bob".to_string(), country: None, description: None, date_of_birth: None },
    )
    .unwrap();
    books::create_with_id(&mut state, oid(2, 1), book_form("First")).unwrap();
    let mut other = book_form("Other");
    other.author_id = oid(1, 2).to_hex();
    books::create_with_id(&mut state, oid(2, 2), other).unwrap();
    books::create_with_id(&mut state, oid(2, 3), book_form("Third")).unwrap();
    assert_eq!(state.db().books_by(&oid(1, 1)), vec![oid(2, 1), oid(2, 3)]);
    assert_eq!(state.db().books_by(&oid(1, 2)), vec![oid(2, 2)]);
    assert_eq!(state.db().books_by(&oid(1, 9)), Vec::<ObjectId>::new());
    let changes = state.changes_of_books_by(&oid(1, 1));
    assert_eq!(changes.len(), 2);
    match (&changes[0], &changes[1]) {
        (IndexChange::PutBook(first), IndexChange::PutBook(third)) => {
            assert_eq!(first.book_id, oid(2, 1).to_hex());
            assert_eq!(first.title, "First");
            assert_eq!(first.author_name, "Ann");
            assert_eq!(third.book_id, oid(2, 3).to_hex());
            assert_eq!(third.title, "Third");
            assert_eq!(third.author_name, "Ann");
        }
        other => panic!("{:?}", other),
    }
    assert!(state.changes_of_books_by(&oid(1, 9)).is_empty());
    let heard = state.search().log.len();
    state.index_books_of(&oid(1, 1));
    assert_eq!(
        state.search().log[heard..],
        vec![
            format!("book {} \"First\" by \"Ann\" Some(\"short\") None", oid(2, 1).to_hex()),
            format!("book {} \"Third\" by \"Ann\" Some(\"short\") None", oid(2, 3).to_hex()),
        ]
    );
    let heard = state.search().log.len();
    state.index_books_of(&oid(1, 9));
    state.index_book(&oid(2, 9));
    state.index_review(&oid(3, 9));
    assert_eq!(
        state.search().log[heard..],
        vec![format!("no book {}", oid(2, 9).to_hex()), format!("no review {}", oid(3, 9).to_hex())]
    );
}
