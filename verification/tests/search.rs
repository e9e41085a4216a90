use bookreview::cache::NoopCache;
use bookreview::db::AppState;
use bookreview::object_id::ObjectId;
use bookreview::routes::authors::AuthorForm;
use bookreview::routes::books::BookForm;
use bookreview::routes::{authors, books};
use bookreview::search::{NullSearchEngine, SearchEngine};
use bookreview::search_query::{words_of, AggregationError};
use bookreview::store::Store;
use bookreview::text::{
    chars_of, decimal, has_substring, is_lex_less, is_space_char, join_spaced, split_tokens,
    to_lower,
};

type State = AppState<NoopCache, NullSearchEngine>;

fn oid(kind: u8, n: u32) -> ObjectId {
    let b = n.to_be_bytes();
    ObjectId::from_bytes([kind, 0, 0, 0, 0, 0, 0, 0, b[0], b[1], b[2], b[3]])
}

fn library() -> State {
    let mut state = AppState::new(Store::new(), NoopCache, NullSearchEngine);
    let author = oid(1, 1);
    authors::create_with_id(
        &mut state,
        author,
        AuthorForm {
            name: "F. Scott".to_string(),
            country: None,
            description: None,
            date_of_birth: None,
        },
    )
    .unwrap();
    let titles = [
        ("The Great Gatsby", Some("A tale of the jazz age")),
        ("Great Expectations", Some("The orphan Pip")),
        ("The Old Man", None),
        ("A Study", Some("the GREAT detective")),
        ("Zebra", Some("nothing here")),
    ];
    for (n, (title, summary)) in titles.iter().enumerate() {
        books::create_with_id(
            &mut state,
            oid(2, n as u32),
            BookForm {
                title: title.to_string(),
                author_id: author.to_hex(),
                summary: summary.map(|s| s.to_string()),
                publication_date: Some("1925-04-10".to_string()),
                total_sales: None,
            },
        )
        .unwrap();
    }
    state
}

fn text(s: &str) -> Vec<char> {
    s.chars().collect()
}

#[test]
fn search_finds_nothing_where_no_book_holds_both_words() {
    let mut state = library();
    books::delete(&mut state, &oid(2, 0).to_hex()).unwrap();
    books::delete(&mut state, &oid(2, 1).to_hex()).unwrap();
    books::delete(&mut state, &oid(2, 3).to_hex()).unwrap();
    let found = state.search_books("the great", 1, 10).unwrap();
    assert_eq!(found.total_results, 0);
    assert!(found.results.is_empty());
    assert!(!found.has_next);
    assert!(!found.has_prev);
    assert_eq!(found.total_pages, 0);
    assert_eq!(found.current_page, 1);
    assert_eq!(found.query, "the great");
}

#[test]
fn every_word_must_occur_in_title_or_summary_whatever_the_case() {
    let state = library();
    let found = state.search_books("  the   GREAT ", 1, 10).unwrap();
    let titles: Vec<&str> = found.results.iter().map(|r| r.title.as_str()).collect();
    assert_eq!(titles, vec!["A Study", "Great Expectations", "The Great Gatsby"]);
    assert_eq!(found.total_results, 3);
    assert_eq!(found.total_pages, 1);
    assert_eq!(found.query, "  the   GREAT ");
    assert_eq!(found.results[0].author_name, "F. Scott");
    assert_eq!(found.results[0].summary.as_deref(), Some("the GREAT detective"));
    assert_eq!(found.results[0].publication_date.as_deref(), Some("1925-04-10"));
    assert_eq!(found.results[0].book_id, oid(2, 3));
}

#[test]
fn a_word_may_be_part_of_a_longer_word() {
    let state = library();
    let found = state.search_books("xpect", 1, 10).unwrap();
    assert_eq!(found.total_results, 1);
    assert_eq!(found.results[0].title, "Great Expectations");
}

#[test]
fn query_without_words_finds_nothing_whatever_the_page() {
    let state = library();
    let found = state.search_books("  \t ", -3, 0).unwrap();
    assert!(found.results.is_empty());
    assert_eq!(found.current_page, 0);
    assert_eq!(found.total_pages, 0);
    assert_eq!(found.total_results, 0);
    assert!(!found.has_next);
    assert!(!found.has_prev);
    assert_eq!(found.query, "  \t ");
}

#[test]
fn page_or_size_below_one_is_refused() {
    let state = library();
    assert_eq!(state.search_books("the", 0, 10).unwrap_err(), AggregationError::InvalidPage);
    assert_eq!(state.search_books("the", 1, 0).unwrap_err(), AggregationError::InvalidPage);
    assert_eq!(state.search_books("the", -1, -1).unwrap_err(), AggregationError::InvalidPage);
}

#[test]
fn pages_split_the_matches_by_title() {
    let state = library();
    let first = state.search_books("e", 1, 2).unwrap();
    assert_eq!(first.total_results, 5);
    assert_eq!(first.total_pages, 3);
    assert!(first.has_next);
    assert!(!first.has_prev);
    let titles: Vec<&str> = first.results.iter().map(|r| r.title.as_str()).collect();
    assert_eq!(titles, vec!["A Study", "Great Expectations"]);
    let second = state.search_books("e", 2, 2).unwrap();
    let titles: Vec<&str> = second.results.iter().map(|r| r.title.as_str()).collect();
    assert_eq!(titles, vec!["The Great Gatsby", "The Old Man"]);
    assert!(second.has_next);
    assert!(second.has_prev);
    let third = state.search_books("e", 3, 2).unwrap();
    let titles: Vec<&str> = third.results.iter().map(|r| r.title.as_str()).collect();
    assert_eq!(titles, vec!["Zebra"]);
    assert!(!third.has_next);
    assert!(third.has_prev);
    let beyond = state.search_books("e", 4, 2).unwrap();
    assert!(beyond.results.is_empty());
    assert_eq!(beyond.total_results, 5);
    assert_eq!(beyond.total_pages, 3);
    assert!(!beyond.has_next);
    assert!(beyond.has_prev);
}

#[test]
fn huge_page_numbers_are_beyond_the_last_page() {
    let state = library();
    let found = state.search_books("e", i64::MAX, i64::MAX).unwrap();
    assert!(found.results.is_empty());
    assert_eq!(found.total_results, 5);
    assert_eq!(found.total_pages, 1);
    assert!(!found.has_next);
    assert!(found.has_prev);
}

#[test]
fn exact_pages_have_no_page_left_over() {
    let state = library();
    let found = state.search_books("e", 1, 5).unwrap();
    assert_eq!(found.total_pages, 1);
    assert_eq!(found.results.len(), 5);
    assert!(!found.has_next);
}

#[test]
fn null_search_engine_finds_nothing() {
    let engine = NullSearchEngine;
    assert!(engine.search("the great", 10).is_empty());
}

#[test]
fn tokens_are_the_runs_between_white_space() {
    assert_eq!(split_tokens(&text(" ab  c\u{00a0}d\n")), vec![text("ab"), text("c"), text("d")]);
    assert!(split_tokens(&text("")).is_empty());
    assert!(split_tokens(&text(" \t\r\n")).is_empty());
    assert_eq!(split_tokens(&text("one")), vec![text("one")]);
}

#[test]
fn white_space_is_what_unicode_calls_white_space() {
    for n in 0..0x11_0000u32 {
        if let Some(c) = char::from_u32(n) {
            assert_eq!(is_space_char(c), c.is_whitespace(), "{:x}", n);
        }
    }
}

#[test]
fn words_are_lower_case_tokens() {
    assert_eq!(words_of(&text("The GREAT  Ärger")), vec![text("the"), text("great"), text("ärger")]);
}

#[test]
fn lower_case_is_that_of_every_alphabet() {
    assert_eq!(to_lower(&text("Hello, World 42")), text("hello, world 42"));
    assert_eq!(to_lower(&text("AZ az @[")), text("az az @["));
    assert_eq!(to_lower(&text("ÉCOLE Ärger")), text("école ärger"));
    assert_eq!(to_lower(&text("ΣΑΣ")), text("σας"));
    assert_eq!(to_lower(&text("İ")), text("i\u{307}"));
    assert_eq!(to_lower(&text("")), text(""));
}

#[test]
fn search_matches_letters_of_every_alphabet_whatever_their_case() {
    let mut state = library();
    books::create_with_id(
        &mut state,
        oid(2, 9),
        BookForm {
            title: "L'ÉCOLE des femmes".to_string(),
            author_id: oid(1, 1).to_hex(),
            summary: Some("Comédie de MOLIÈRE".to_string()),
            publication_date: None,
            total_sales: None,
        },
    )
    .unwrap();
    let found = state.search_books("école", 1, 10).unwrap();
    assert_eq!(found.total_results, 1);
    assert_eq!(found.results[0].title, "L'ÉCOLE des femmes");
    let found = state.search_books("Molière ÉCOLE", 1, 10).unwrap();
    assert_eq!(found.total_results, 1);
    assert_eq!(found.results[0].book_id, oid(2, 9));
    assert_eq!(state.search_books("ecole", 1, 10).unwrap().total_results, 0);
}

#[test]
fn substring_search_finds_every_position() {
    assert!(has_substring(&text("hello"), &text("")));
    assert!(has_substring(&text("hello"), &text("h")));
    assert!(has_substring(&text("hello"), &text("llo")));
    assert!(has_substring(&text("hello"), &text("hello")));
    assert!(!has_substring(&text("hello"), &text("helloo")));
    assert!(!has_substring(&text("hello"), &text("lol")));
    assert!(has_substring(&text(""), &text("")));
    assert!(!has_substring(&text(""), &text("a")));
}

#[test]
fn lexicographic_order_is_by_first_difference_then_by_length() {
    assert!(is_lex_less(&text("a"), &text("b")));
    assert!(!is_lex_less(&text("b"), &text("a")));
    assert!(is_lex_less(&text("ab"), &text("abc")));
    assert!(!is_lex_less(&text("abc"), &text("ab")));
    assert!(!is_lex_less(&text("abc"), &text("abc")));
    assert!(is_lex_less(&text(""), &text("a")));
    assert!(!is_lex_less(&text(""), &text("")));
    assert!(is_lex_less(&text("Z"), &text("a")));
}

#[test]
fn characters_of_a_text_come_in_order() {
    assert_eq!(chars_of("héllo"), text("héllo"));
    assert!(chars_of("").is_empty());
}

#[test]
fn decimal_digits_of_numbers() {
    assert_eq!(decimal(0), text("0"));
    assert_eq!(decimal(7), text("7"));
    assert_eq!(decimal(10), text("10"));
    assert_eq!(decimal(1203), text("1203"));
    assert_eq!(decimal(u64::MAX), text("18446744073709551615"));
}

#[test]
fn words_are_joined_with_one_space() {
    assert_eq!(join_spaced(&vec![text("the"), text("great")]), text("the great"));
    assert_eq!(join_spaced(&vec![text("one")]), text("one"));
    assert!(join_spaced(&Vec::new()).is_empty());
}
