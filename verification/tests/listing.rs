use bookreview::cache::{Cache, NoopCache};
use bookreview::db::AppState;
use bookreview::listing::positions_holding;
use bookreview::memory_cache::ChosenCache;
use bookreview::models::{Author, Book, Review};
use bookreview::object_id::ObjectId;
use bookreview::search::NullSearchEngine;
use bookreview::store::Store;
use bookreview::upload::{name_upload, UploadError};

fn oid(kind: u8, n: u32) -> ObjectId {
    let b = n.to_be_bytes();
    ObjectId::from_bytes([kind, 0, 0, 0, 0, 0, 0, 0, b[0], b[1], b[2], b[3]])
}

fn stocked() -> Store {
    let mut store = Store::new();
    for (n, name) in ["Gabriela Mistral", "Pablo Neruda", "Isabel Allende"].iter().enumerate() {
        store
            .insert_author(Author {
                id: oid(1, n as u32),
                name: name.to_string(),
                date_of_birth: None,
                country: None,
                description: None,
                image_path: None,
            })
            .unwrap();
    }
    for (n, (title, author)) in
        [("Desolación", 0), ("Canto General", 1), ("eva luna", 2), ("Canto General", 2)].iter().enumerate()
    {
        store
            .insert_book(Book {
                id: oid(2, n as u32),
                author_id: oid(1, *author),
                title: title.to_string(),
                summary: None,
                publication_date: None,
                total_sales: None,
            })
            .unwrap();
    }
    for (n, (text, book)) in [("Moving", 0), ("a MOVING read", 1), ("dull", 1)].iter().enumerate() {
        store
            .insert_review(Review {
                id: oid(3, n as u32),
                book_id: oid(2, *book),
                text: text.to_string(),
                score: 3,
                up_votes: 0,
            })
            .unwrap();
    }
    store.record_sale(oid(4, 0), oid(2, 0), 1922, 5).unwrap();
    store.record_sale(oid(4, 1), oid(2, 1), 1950, 7).unwrap();
    store.record_sale(oid(4, 2), oid(2, 1), 1922, 9).unwrap();
    store
}

#[test]
fn texts_are_found_whatever_the_case() {
    let texts: Vec<Vec<char>> =
        ["Alpha", "beta", "ALPHABET", ""].iter().map(|t| t.chars().collect()).collect();
    assert_eq!(positions_holding(&texts, Some("alpha")), vec![0, 2]);
    assert_eq!(positions_holding(&texts, Some("BET")), vec![1, 2]);
    assert_eq!(positions_holding(&texts, Some("")), vec![0, 1, 2, 3]);
    assert_eq!(positions_holding(&texts, None), vec![0, 1, 2, 3]);
    assert!(positions_holding(&texts, Some("gamma")).is_empty());
    assert!(positions_holding(&Vec::new(), None).is_empty());
}

#[test]
fn documents_are_listed_by_what_is_asked() {
    let store = stocked();
    assert_eq!(store.authors_named(Some("EL")), vec![0, 2]);
    assert_eq!(store.authors_named(None), vec![0, 1, 2]);
    assert_eq!(store.books_titled(Some("canto")), vec![1, 3]);
    assert_eq!(store.books_titled(Some("LUNA")), vec![2]);
    assert_eq!(store.reviews_saying(Some("moving")), vec![0, 1]);
    assert_eq!(store.reviews_saying(Some("x")), Vec::<usize>::new());
}

#[test]
fn sales_are_listed_by_book_and_year() {
    let store = stocked();
    let book = oid(2, 1).to_hex();
    assert_eq!(store.sales_of(None, None), vec![0, 1, 2]);
    assert_eq!(store.sales_of(Some(&book), None), vec![1, 2]);
    assert_eq!(store.sales_of(None, Some(1922)), vec![0, 2]);
    assert_eq!(store.sales_of(Some(&book), Some(1922)), vec![2]);
    assert_eq!(store.sales_of(Some(&book), Some(2000)), Vec::<usize>::new());
    assert_eq!(store.sales_of(Some("not an id"), Some(1950)), vec![1]);
    assert_eq!(store.sales_of(Some(&oid(2, 9).to_hex()), None), Vec::<usize>::new());
}

#[test]
fn names_and_titles_of_missing_documents_are_unknown() {
    let store = stocked();
    assert_eq!(store.title_of_book(&oid(2, 2)), "eva luna");
    assert_eq!(store.title_of_book(&oid(2, 9)), "(unknown)");
    assert_eq!(store.name_of_author(&oid(1, 1)), "Pablo Neruda");
    assert_eq!(store.name_of_author(&oid(1, 9)), "(unknown)");
}

#[test]
fn books_are_listed_by_title_with_their_authors() {
    let state = AppState::new(stocked(), NoopCache, NullSearchEngine);
    let listed = state.get_all_books_with_authors();
    let rows: Vec<(String, String, String)> =
        listed.into_iter().map(|b| (b.id, b.title, b.author_name)).collect();
    assert_eq!(
        rows,
        vec![
            (oid(2, 1).to_hex(), "Canto General".to_string(), "Pablo Neruda".to_string()),
            (oid(2, 3).to_hex(), "Canto General".to_string(), "Isabel Allende".to_string()),
            (oid(2, 0).to_hex(), "Desolación".to_string(), "Gabriela Mistral".to_string()),
            (oid(2, 2).to_hex(), "eva luna".to_string(), "Isabel Allende".to_string()),
        ]
    );
    assert_eq!(state.get_all_authors().len(), 3);
    assert_eq!(state.get_all_authors()[1].name, "Pablo Neruda");
}

#[test]
fn chosen_cache_is_in_memory_or_off() {
    let mut on = ChosenCache::select(true);
    let mut off = ChosenCache::select(false);
    for cache in [&mut on, &mut off] {
        cache.set("a:1", b"x", Some(5));
        cache.set("a:2", b"y", None);
        cache.set("b", b"z", None);
    }
    assert_eq!(on.get("a:1"), Some(b"x".to_vec()));
    assert_eq!(off.get("a:1"), None);
    on.advance(5);
    off.advance(5);
    assert_eq!(on.get("a:1"), None);
    assert_eq!(on.get("a:2"), Some(b"y".to_vec()));
    on.del_prefix("a:");
    off.del_prefix("a:");
    assert_eq!(on.get("a:2"), None);
    assert_eq!(on.get("b"), Some(b"z".to_vec()));
    on.del("b");
    off.del("b");
    assert_eq!(on.get("b"), None);
    assert_eq!(off.get("b"), None);
}

#[test]
fn uploads_are_named_by_kind_token_and_extension() {
    let png = [0x89, 0x50, 0x4e, 0x47, 0x0d, 0x0a, 0x1a, 0x0a, 0, 0];
    let first = name_upload(&png, "txt", "book_cover").unwrap();
    let second = name_upload(&png, "txt", "book_cover").unwrap();
    assert!(first.starts_with("book_cover_"));
    assert!(first.ends_with(".png"));
    assert!(first.len() > "book_cover_.png".len());
    assert_ne!(first, second);
    let named = name_upload(b"no image at all", "JPEG", "author_image").unwrap();
    assert!(named.starts_with("author_image_"));
    assert!(named.ends_with(".JPEG"));
    assert_eq!(
        name_upload(b"no image at all", "txt", "book_cover"),
        Err(UploadError::InvalidType("txt".to_string()))
    );
    assert_eq!(name_upload(&[], "", "book_cover"), Err(UploadError::InvalidType(String::new())));
}

#[test]
fn the_chosen_cache_of_a_state_has_a_clock_only_in_memory() {
    let mut on = AppState::new(stocked(), ChosenCache::select(true), NullSearchEngine);
    assert!(!on.get_authors_summary_cached().from_cache);
    on.advance_cache(0);
    assert!(on.get_authors_summary_cached().from_cache);
    on.advance_cache(299);
    assert!(on.get_authors_summary_cached().from_cache);
    on.advance_cache(1);
    let again = on.get_authors_summary_cached();
    assert!(!again.from_cache);
    assert_eq!(again.value.len(), 3);
    assert!(on.get_authors_summary_cached().from_cache);
    on.advance_cache(u64::MAX);
    on.advance_cache(u64::MAX);
    assert!(!on.get_authors_summary_cached().from_cache);
    assert_eq!(on.db().authors().len(), 3);
    let mut off = AppState::new(stocked(), ChosenCache::select(false), NullSearchEngine);
    assert!(!off.get_authors_summary_cached().from_cache);
    off.advance_cache(1);
    assert!(!off.get_authors_summary_cached().from_cache);
    assert_eq!(off.get_authors_summary_cached().value.len(), 3);
}
