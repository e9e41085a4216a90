use bookreview::entries::{decode_entry, encode_entry, CacheEntry};
use bookreview::fields::{decode_fields, encode_fields, Field};
use bookreview::models::{AuthorSummary, Average, SearchResult};
use bookreview::object_id::ObjectId;
use bookreview::search_query::SearchPage;

fn oid(n: u8) -> ObjectId {
    ObjectId::from_bytes([n, 1, 2, 3, 4, 5, 6, 7, 8, 9, 10, 255])
}

fn same(a: &[Field], b: &[Field]) -> bool {
    a.len() == b.len()
        && a.iter().zip(b.iter()).all(|(x, y)| match (x, y) {
            (Field::Absent, Field::Absent) => true,
            (Field::Int(p), Field::Int(q)) => p == q,
            (Field::Text(p), Field::Text(q)) => p == q,
            (Field::Bytes(p), Field::Bytes(q)) => p == q,
            _ => false,
        })
}

#[test]
fn fields_are_written_as_tag_and_payload() {
    assert_eq!(encode_fields(&vec![Field::Absent]), vec![0]);
    assert_eq!(encode_fields(&vec![Field::Int(0)]), vec![1, 0, 0, 0, 0, 0, 0, 0, 0x80]);
    assert_eq!(encode_fields(&vec![Field::Int(-1)]), vec![1, 255, 255, 255, 255, 255, 255, 255, 0x7f]);
    assert_eq!(encode_fields(&vec![Field::Int(i64::MIN)]), vec![1, 0, 0, 0, 0, 0, 0, 0, 0]);
    assert_eq!(
        encode_fields(&vec![Field::Text(vec!['a', 'é'])]),
        vec![2, 2, 0, 0, 0, 0, 0, 0, 0, 0x61, 0, 0, 0, 0xe9, 0, 0, 0]
    );
    assert_eq!(encode_fields(&vec![Field::Bytes(vec![7, 8])]), vec![3, 2, 0, 0, 0, 0, 0, 0, 0, 7, 8]);
    assert!(encode_fields(&Vec::new()).is_empty());
}

#[test]
fn fields_are_read_back_from_their_bytes() {
    let fields = vec![
        Field::Int(42),
        Field::Absent,
        Field::Text("héllo \u{10ffff}".chars().collect()),
        Field::Bytes(vec![0, 1, 2, 3]),
        Field::Int(i64::MAX),
        Field::Int(i64::MIN),
        Field::Text(Vec::new()),
        Field::Bytes(Vec::new()),
    ];
    let bytes = encode_fields(&fields);
    let read = decode_fields(&bytes).unwrap();
    assert!(same(&read, &fields));
    assert!(decode_fields(&[]).unwrap().is_empty());
}

#[test]
fn bytes_that_spell_no_fields_are_refused() {
    assert!(decode_fields(&[4]).is_none());
    assert!(decode_fields(&[1, 0, 0]).is_none());
    assert!(decode_fields(&[2, 1, 0, 0, 0, 0, 0, 0, 0, 0x61, 0, 0]).is_none());
    assert!(decode_fields(&[2, 1, 0, 0, 0, 0, 0, 0, 0, 0, 0xd8, 0, 0]).is_none());
    assert!(decode_fields(&[2, 1, 0, 0, 0, 0, 0, 0, 0, 0, 0, 0x11, 0]).is_none());
    assert!(decode_fields(&[2, 255, 255, 255, 255, 255, 255, 255, 255, 0, 0, 0, 0]).is_none());
    assert!(decode_fields(&[3, 3, 0, 0, 0, 0, 0, 0, 0, 1, 2]).is_none());
    assert!(decode_fields(&[3, 255, 255, 255, 255, 255, 255, 255, 255]).is_none());
    assert!(decode_fields(&[0, 0, 9]).is_none());
}

#[test]
fn summary_entry_is_read_back() {
    let rows = vec![
        AuthorSummary {
            author_id: oid(1),
            name: "Ann Ärger".to_string(),
            published_books: 3,
            average_score: Average { total: 13, count: 3 },
            total_sales: 1234567890123,
        },
        AuthorSummary {
            author_id: oid(2),
            name: String::new(),
            published_books: 0,
            average_score: Average { total: 0, count: 0 },
            total_sales: 0,
        },
    ];
    let bytes = encode_entry(&CacheEntry::Summary(rows.clone())).unwrap();
    match decode_entry(&bytes) {
        Some(CacheEntry::Summary(read)) => {
            assert_eq!(read.len(), 2);
            for (a, b) in read.iter().zip(rows.iter()) {
                assert_eq!(a.author_id, b.author_id);
                assert_eq!(a.name, b.name);
                assert_eq!(a.published_books, b.published_books);
                assert_eq!(a.average_score, b.average_score);
                assert_eq!(a.total_sales, b.total_sales);
            }
        }
        _ => panic!("not a summary"),
    }
    let empty = encode_entry(&CacheEntry::Summary(Vec::new())).unwrap();
    assert!(matches!(decode_entry(&empty), Some(CacheEntry::Summary(rows)) if rows.is_empty()));
}

#[test]
fn average_entry_is_read_back() {
    let entry = CacheEntry::BookAverage { book: oid(9), average: Average { total: 7, count: 2 } };
    let bytes = encode_entry(&entry).unwrap();
    match decode_entry(&bytes) {
        Some(CacheEntry::BookAverage { book, average }) => {
            assert_eq!(book, oid(9));
            assert_eq!(average, Average { total: 7, count: 2 });
        }
        _ => panic!("not a mean"),
    }
}

#[test]
fn search_entry_is_read_back() {
    let found = SearchPage {
        results: vec![
            SearchResult {
                book_id: oid(3),
                title: "The Great".to_string(),
                author_name: "Ann".to_string(),
                summary: None,
                publication_date: Some("1925-04-10".to_string()),
            },
            SearchResult {
                book_id: oid(4),
                title: "Other".to_string(),
                author_name: "Bob".to_string(),
                summary: Some(String::new()),
                publication_date: None,
            },
        ],
        total_results: 12,
        total_pages: 6,
    };
    let words: Vec<Vec<char>> = vec!["the".chars().collect(), "great".chars().collect()];
    let entry = CacheEntry::Search { words: words.clone(), page: 2, per_page: 2, found };
    let bytes = encode_entry(&entry).unwrap();
    match decode_entry(&bytes) {
        Some(CacheEntry::Search { words: w, page, per_page, found }) => {
            assert_eq!(w, words);
            assert_eq!(page, 2);
            assert_eq!(per_page, 2);
            assert_eq!(found.total_results, 12);
            assert_eq!(found.total_pages, 6);
            assert_eq!(found.results.len(), 2);
            assert_eq!(found.results[0].book_id, oid(3));
            assert_eq!(found.results[0].title, "The Great");
            assert_eq!(found.results[0].author_name, "Ann");
            assert_eq!(found.results[0].summary, None);
            assert_eq!(found.results[0].publication_date.as_deref(), Some("1925-04-10"));
            assert_eq!(found.results[1].summary.as_deref(), Some(""));
            assert_eq!(found.results[1].publication_date, None);
        }
        _ => panic!("not a search page"),
    }
}

#[test]
fn fields_that_hold_no_entry_are_refused() {
    assert!(decode_entry(&[]).is_none());
    assert!(decode_entry(b"not an entry").is_none());
    assert!(decode_entry(&encode_fields(&vec![Field::Int(9)])).is_none());
    assert!(decode_entry(&encode_fields(&vec![Field::Int(1), Field::Int(1)])).is_none());
    assert!(decode_entry(&encode_fields(&vec![Field::Int(1), Field::Int(-1)])).is_none());
    assert!(decode_entry(&encode_fields(&vec![
        Field::Int(2),
        Field::Bytes(vec![1, 2, 3]),
        Field::Int(1),
        Field::Int(1)
    ]))
    .is_none());
    assert!(decode_entry(&encode_fields(&vec![
        Field::Int(2),
        Field::Bytes(vec![0; 12]),
        Field::Int(1),
        Field::Absent
    ]))
    .is_none());
    let mut bytes = encode_entry(&CacheEntry::BookAverage {
        book: oid(1),
        average: Average { total: 1, count: 1 },
    })
    .unwrap();
    bytes.push(0);
    assert!(decode_entry(&bytes).is_none());
    bytes.pop();
    bytes.pop();
    assert!(decode_entry(&bytes).is_none());
}
