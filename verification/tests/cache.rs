use bookreview::cache::{Cache, NoopCache};
use bookreview::cached::{AUTHORS_SUMMARY_CACHE_KEY, SEARCH_KEY_PREFIX};
use bookreview::db::AppState;
use bookreview::memory_cache::MemoryCache;
use bookreview::models::Average;
use bookreview::object_id::ObjectId;
use bookreview::routes::authors::AuthorForm;
use bookreview::routes::books::BookForm;
use bookreview::routes::reviews::ReviewForm;
use bookreview::routes::sales::SaleForm;
use bookreview::routes::{authors, books, reviews, sales};
use bookreview::search::{NullSearchEngine, SearchEngine};
use bookreview::store::Store;

type State = AppState<MemoryCache, NullSearchEngine>;

fn oid(kind: u8, n: u32) -> ObjectId {
    let b = n.to_be_bytes();
    ObjectId::from_bytes([kind, 0, 0, 0, 0, 0, 0, 0, b[0], b[1], b[2], b[3]])
}

fn fresh() -> State {
    AppState::new(Store::new(), MemoryCache::new(), NullSearchEngine)
}

fn author_form(name: &str) -> AuthorForm {
    AuthorForm { name: name.to_string(), country: None, description: None, date_of_birth: None }
}

fn book_form(author: ObjectId, title: &str) -> BookForm {
    BookForm {
        title: title.to_string(),
        author_id: author.to_hex(),
        summary: Some("a summary".to_string()),
        publication_date: Some("2001-02-03".to_string()),
        total_sales: None,
    }
}

fn review_form(book: ObjectId, score: i32) -> ReviewForm {
    ReviewForm { book_id: book.to_hex(), text: "fine".to_string(), score, up_votes: None }
}

fn stocked() -> (State, ObjectId, ObjectId, ObjectId) {
    let mut state = fresh();
    let a = oid(1, 1);
    let b1 = oid(2, 1);
    let b2 = oid(2, 2);
    authors::create_with_id(&mut state, a, author_form("Ann")).unwrap();
    books::create_with_id(&mut state, b1, book_form(a, "First")).unwrap();
    books::create_with_id(&mut state, b2, book_form(a, "Second")).unwrap();
    reviews::create_with_id(&mut state, oid(3, 1), review_form(b1, 3)).unwrap();
    reviews::create_with_id(&mut state, oid(3, 2), review_form(b2, 4)).unwrap();
    (state, a, b1, b2)
}

fn state_store() -> Store {
    let mut store = Store::new();
    store
        .insert_author(bookreview::models::Author {
            id: oid(1, 1),
            name: "Ann".to_string(),
            date_of_birth: None,
            country: None,
            description: None,
            image_path: None,
        })
        .unwrap();
    store
}

#[test]
fn a_new_state_makes_its_cache_forget() {
    let mut cache = MemoryCache::new();
    cache.set(AUTHORS_SUMMARY_CACHE_KEY, b"stale", None);
    cache.set("anything", b"else", Some(10));
    let mut state = AppState::new(state_store(), cache, NullSearchEngine);
    assert_eq!(state.cache().get(AUTHORS_SUMMARY_CACHE_KEY), None);
    assert_eq!(state.cache().get("anything"), None);
    let read = state.get_authors_summary_cached();
    assert!(!read.from_cache);
    assert_eq!(read.value[0].name, "Ann");
    assert_eq!(state.db().authors().len(), 1);
    assert!(state.search().search("Ann", 5).is_empty());
}

#[test]
fn noop_cache_always_misses() {
    let mut cache = NoopCache;
    cache.set("k", b"value", None);
    assert_eq!(cache.get("k"), None);
    cache.del("k");
    cache.del_prefix("k");
    assert_eq!(cache.get("k"), None);
}

#[test]
fn memory_cache_serves_what_it_was_given() {
    let mut cache = MemoryCache::new();
    assert_eq!(cache.get("a"), None);
    cache.set("a", b"one", None);
    cache.set("b", b"two", Some(10));
    assert_eq!(cache.get("a"), Some(b"one".to_vec()));
    assert_eq!(cache.get("b"), Some(b"two".to_vec()));
    cache.set("a", b"three", None);
    assert_eq!(cache.get("a"), Some(b"three".to_vec()));
    assert_eq!(cache.get("c"), None);
}

#[test]
fn forgetting_an_absent_key_or_prefix_changes_nothing() {
    let mut cache = MemoryCache::new();
    cache.set("keep", b"1", None);
    cache.del("absent");
    cache.del_prefix("absent:");
    assert_eq!(cache.get("keep"), Some(b"1".to_vec()));
    cache.del("keep");
    cache.del("keep");
    assert_eq!(cache.get("keep"), None);
}

#[test]
fn forgetting_a_prefix_twice_is_forgetting_it_once() {
    let mut once = MemoryCache::new();
    let mut twice = MemoryCache::new();
    for cache in [&mut once, &mut twice] {
        cache.set("search:books:a:1:10", b"1", None);
        cache.set("search:books:b:1:10", b"2", None);
        cache.set("search:book", b"3", None);
        cache.set("authors:summary", b"4", None);
        cache.set("", b"5", None);
    }
    once.del_prefix("search:books:");
    twice.del_prefix("search:books:");
    twice.del_prefix("search:books:");
    for key in ["search:books:a:1:10", "search:books:b:1:10", "search:book", "authors:summary", ""] {
        assert_eq!(once.get(key), twice.get(key));
    }
    assert_eq!(once.get("search:books:a:1:10"), None);
    assert_eq!(once.get("search:books:b:1:10"), None);
    assert_eq!(once.get("search:book"), Some(b"3".to_vec()));
    assert_eq!(once.get("authors:summary"), Some(b"4".to_vec()));
    assert_eq!(once.get(""), Some(b"5".to_vec()));
}

#[test]
fn the_empty_prefix_forgets_everything() {
    let mut cache = MemoryCache::new();
    cache.set("a", b"1", None);
    cache.set("b", b"2", Some(5));
    cache.del_prefix("");
    assert_eq!(cache.get("a"), None);
    assert_eq!(cache.get("b"), None);
}

#[test]
fn entries_are_served_until_their_time_is_over() {
    let mut cache = MemoryCache::new();
    cache.set("short", b"s", Some(10));
    cache.set("long", b"l", Some(20));
    cache.set("ever", b"e", None);
    cache.set("never", b"n", Some(0));
    assert_eq!(cache.get("never"), None);
    cache.advance(9);
    assert_eq!(cache.get("short"), Some(b"s".to_vec()));
    cache.advance(1);
    assert_eq!(cache.get("short"), None);
    assert_eq!(cache.get("long"), Some(b"l".to_vec()));
    cache.advance(u64::MAX);
    assert_eq!(cache.get("long"), None);
    assert_eq!(cache.get("ever"), Some(b"e".to_vec()));
}

#[test]
fn second_summary_read_comes_from_the_cache_and_is_the_same() {
    let (mut state, _, _, _) = stocked();
    let first = state.get_authors_summary_cached();
    assert!(!first.from_cache);
    let held = state.cache().get(AUTHORS_SUMMARY_CACHE_KEY).unwrap();
    let second = state.get_authors_summary_cached();
    assert!(second.from_cache);
    assert_eq!(state.cache().get(AUTHORS_SUMMARY_CACHE_KEY).unwrap(), held);
    assert_eq!(first.value.len(), 1);
    assert_eq!(second.value.len(), 1);
    assert_eq!(first.value[0].author_id, second.value[0].author_id);
    assert_eq!(first.value[0].name, second.value[0].name);
    assert_eq!(first.value[0].published_books, second.value[0].published_books);
    assert_eq!(first.value[0].average_score, second.value[0].average_score);
    assert_eq!(first.value[0].total_sales, second.value[0].total_sales);
    assert_eq!(second.value[0].average_score, Average { total: 7, count: 2 });
}

#[test]
fn summary_is_computed_again_when_its_time_is_over() {
    let (mut state, _, _, _) = stocked();
    assert!(!state.get_authors_summary_cached().from_cache);
    state.advance_cache(299);
    assert!(state.get_authors_summary_cached().from_cache);
    state.advance_cache(1);
    assert!(!state.get_authors_summary_cached().from_cache);
}

#[test]
fn bytes_that_are_no_entry_count_as_a_miss() {
    let mut cache = MemoryCache::new();
    cache.set(AUTHORS_SUMMARY_CACHE_KEY, b"not an entry", None);
    cache.set(&State::key_book_avg(&oid(2, 1).to_hex()), &[1, 2, 3], None);
    cache.set("search:books:ann:1:10", &[], None);
    let mut state = AppState::with_cache(state_store(), cache, NullSearchEngine);
    let read = state.get_authors_summary_cached();
    assert!(!read.from_cache);
    assert_eq!(read.value.len(), 1);
    assert_eq!(read.value[0].name, "Ann");
    assert!(state.get_authors_summary_cached().from_cache);
    let mean = state.get_book_average_score_cached(&oid(2, 1));
    assert!(!mean.from_cache);
    assert_eq!(mean.value, Average { total: 0, count: 0 });
    assert!(state.get_book_average_score_cached(&oid(2, 1)).from_cache);
    let found = state.search_books_cached("ann", 1, 10).unwrap();
    assert!(!found.from_cache);
    assert_eq!(found.value.total_results, 0);
    assert!(state.search_books_cached("ann", 1, 10).unwrap().from_cache);
}

#[test]
fn without_a_cache_every_read_is_computed() {
    let mut state = AppState::new(Store::new(), NoopCache, NullSearchEngine);
    authors::create_with_id(&mut state, oid(1, 1), author_form("Ann")).unwrap();
    let first = state.get_authors_summary_cached();
    let second = state.get_authors_summary_cached();
    assert!(!first.from_cache);
    assert!(!second.from_cache);
    assert_eq!(first.value[0].name, second.value[0].name);
}

#[test]
fn changed_score_shows_in_the_next_cached_mean() {
    let (mut state, _, b1, _) = stocked();
    let key = State::key_book_avg(&b1.to_hex());
    let before = state.get_book_average_score_cached(&b1);
    assert!(!before.from_cache);
    assert_eq!(before.value, Average { total: 3, count: 1 });
    assert!(state.get_book_average_score_cached(&b1).from_cache);
    assert!(state.cache().get(&key).is_some());
    let form = ReviewForm { book_id: b1.to_hex(), text: "better".to_string(), score: 5, up_votes: None };
    assert_eq!(reviews::update(&mut state, &oid(3, 1).to_hex(), form), Ok(true));
    assert_eq!(state.cache().get(&key), None);
    let after = state.get_book_average_score_cached(&b1);
    assert!(!after.from_cache);
    assert_eq!(after.value, Average { total: 5, count: 1 });
    let again = state.get_book_average_score_cached(&b1);
    assert!(again.from_cache);
    assert_eq!(again.value, Average { total: 5, count: 1 });
}

#[test]
fn moving_a_review_forgets_the_means_of_both_books() {
    let (mut state, _, b1, b2) = stocked();
    state.get_book_average_score_cached(&b1);
    state.get_book_average_score_cached(&b2);
    let form = ReviewForm { book_id: b2.to_hex(), text: "moved".to_string(), score: 1, up_votes: None };
    assert_eq!(reviews::update(&mut state, &oid(3, 1).to_hex(), form), Ok(true));
    assert_eq!(state.cache().get(&State::key_book_avg(&b1.to_hex())), None);
    assert_eq!(state.cache().get(&State::key_book_avg(&b2.to_hex())), None);
    assert_eq!(state.get_book_average_score_cached(&b1).value, Average { total: 0, count: 0 });
    assert_eq!(state.get_book_average_score_cached(&b2).value, Average { total: 5, count: 2 });
}

#[test]
fn a_review_of_one_book_leaves_the_cached_mean_of_another() {
    let (mut state, _, b1, b2) = stocked();
    state.get_book_average_score_cached(&b1);
    state.get_book_average_score_cached(&b2);
    reviews::create_with_id(&mut state, oid(3, 9), review_form(b1, 1)).unwrap();
    assert_eq!(state.cache().get(&State::key_book_avg(&b1.to_hex())), None);
    let other = state.get_book_average_score_cached(&b2);
    assert!(other.from_cache);
    assert_eq!(other.value, Average { total: 4, count: 1 });
}

#[test]
fn every_write_forgets_the_summary_and_the_search_pages() {
    let (mut state, a, b1, _) = stocked();
    let warm = |state: &mut State| {
        state.get_authors_summary_cached();
        assert!(state.search_books_cached("first", 1, 10).is_ok());
        assert!(state.cache().get(AUTHORS_SUMMARY_CACHE_KEY).is_some());
        assert!(state.cache().get("search:books:first:1:10").is_some());
    };
    let cold = |state: &State| {
        assert_eq!(state.cache().get(AUTHORS_SUMMARY_CACHE_KEY), None);
        assert_eq!(state.cache().get("search:books:first:1:10"), None);
    };
    warm(&mut state);
    authors::create_with_id(&mut state, oid(1, 2), author_form("Bob")).unwrap();
    cold(&state);
    warm(&mut state);
    authors::update(&mut state, &a.to_hex(), author_form("Anne")).unwrap();
    cold(&state);
    warm(&mut state);
    books::create_with_id(&mut state, oid(2, 3), book_form(a, "Third")).unwrap();
    cold(&state);
    warm(&mut state);
    books::update(&mut state, &b1.to_hex(), book_form(a, "First again")).unwrap();
    cold(&state);
    warm(&mut state);
    reviews::create_with_id(&mut state, oid(3, 3), review_form(b1, 2)).unwrap();
    cold(&state);
    warm(&mut state);
    reviews::delete(&mut state, &oid(3, 3).to_hex()).unwrap();
    cold(&state);
    warm(&mut state);
    sales::create_with_id(&mut state, oid(4, 1), SaleForm { book_id: b1.to_hex(), year: 2001, units: 4 }).unwrap();
    cold(&state);
    warm(&mut state);
    sales::update(&mut state, &oid(4, 1).to_hex(), SaleForm { book_id: b1.to_hex(), year: 2002, units: 6 }).unwrap();
    cold(&state);
    warm(&mut state);
    sales::delete(&mut state, &oid(4, 1).to_hex()).unwrap();
    cold(&state);
    warm(&mut state);
    books::delete(&mut state, &oid(2, 3).to_hex()).unwrap();
    cold(&state);
    warm(&mut state);
    authors::delete_author(&mut state, &oid(1, 2).to_hex()).unwrap();
    cold(&state);
}

#[test]
fn a_refused_write_leaves_the_cache_alone() {
    let (mut state, a, _, _) = stocked();
    state.get_authors_summary_cached();
    assert!(authors::create_with_id(&mut state, a, author_form("Again")).is_err());
    assert!(books::create_with_id(&mut state, oid(2, 9), book_form(oid(1, 99), "Orphan")).is_err());
    assert!(reviews::create_with_id(&mut state, oid(3, 9), review_form(oid(2, 99), 3)).is_err());
    assert!(authors::update(&mut state, "not an id", author_form("X")).is_err());
    assert!(state.cache().get(AUTHORS_SUMMARY_CACHE_KEY).is_some());
    assert!(state.get_authors_summary_cached().from_cache);
}

#[test]
fn a_sale_shows_in_the_next_cached_summary() {
    let (mut state, _, b1, _) = stocked();
    assert_eq!(state.get_authors_summary_cached().value[0].total_sales, 0);
    sales::create_with_id(&mut state, oid(4, 1), SaleForm { book_id: b1.to_hex(), year: 2001, units: 25 }).unwrap();
    let read = state.get_authors_summary_cached();
    assert!(!read.from_cache);
    assert_eq!(read.value[0].total_sales, 25);
}

#[test]
fn deleting_an_author_forgets_the_mean_of_each_of_its_books() {
    let (mut state, a, b1, b2) = stocked();
    state.get_book_average_score_cached(&b1);
    state.get_book_average_score_cached(&b2);
    let gone = authors::delete_author(&mut state, &a.to_hex()).unwrap();
    assert_eq!(gone, vec![b1, b2]);
    assert_eq!(state.cache().get(&State::key_book_avg(&b1.to_hex())), None);
    assert_eq!(state.cache().get(&State::key_book_avg(&b2.to_hex())), None);
    assert_eq!(state.get_book_average_score_cached(&b1).value, Average { total: 0, count: 0 });
}

#[test]
fn queries_with_the_same_words_share_a_page() {
    let (mut state, _, _, _) = stocked();
    let first = state.search_books_cached("First  SUMMARY", 1, 10).unwrap();
    assert!(!first.from_cache);
    assert_eq!(first.value.query, "First  SUMMARY");
    let second = state.search_books_cached(" first summary ", 1, 10).unwrap();
    assert!(second.from_cache);
    assert_eq!(second.value.query, " first summary ");
    assert_eq!(second.value.total_results, 1);
    assert_eq!(second.value.results[0].title, "First");
    assert_eq!(second.value.results[0].summary.as_deref(), Some("a summary"));
    assert_eq!(second.value.total_pages, 1);
    assert!(!second.value.has_next);
    assert!(state.cache().get("search:books:first summary:1:10").is_some());
    let other_page = state.search_books_cached("first summary", 2, 10).unwrap();
    assert!(!other_page.from_cache);
    assert!(other_page.value.results.is_empty());
    assert!(other_page.value.has_prev);
}

#[test]
fn cached_search_refuses_what_the_search_refuses() {
    let (mut state, _, _, _) = stocked();
    assert!(state.search_books_cached("first", 0, 10).is_err());
    let empty = state.search_books_cached("   ", 7, 0).unwrap();
    assert!(!empty.from_cache);
    assert_eq!(empty.value.total_results, 0);
    assert_eq!(empty.value.current_page, 0);
    assert_eq!(empty.value.query, "   ");
}

#[test]
fn cache_keys_are_spelled_as_the_views_name_them() {
    assert_eq!(AUTHORS_SUMMARY_CACHE_KEY, "authors:summary");
    assert_eq!(SEARCH_KEY_PREFIX, "search:books:");
    assert_eq!(State::key_book_avg("0123456789abcdef01234567"), "book:0123456789abcdef01234567:avg_score");
    let words: Vec<Vec<char>> = vec!["the".chars().collect(), "great".chars().collect()];
    assert_eq!(State::key_search(&words, 3, 25), "search:books:the great:3:25");
}
