//! What the cache holds: a report with what it is a report of, written as
//! a list of fields.

use crate::fields::{decode_fields, encode_fields, fields_fit, fields_of, Field, FieldView};
use crate::models::{
    text_of, AuthorSummary, AuthorSummaryView, Average, SearchResult, SearchResultView,
};
use crate::object_id::{id_with, lemma_id_with, ObjectId};
use crate::search_query::{SearchPage, SearchPageView};
use crate::seqs::{lemma_views_push, views};
use crate::text::{chars_of, string_of};
use vstd::prelude::*;

verus! {

/// An entry of the cache.
#[derive(Debug, Clone)]
pub enum CacheEntry {
    /// The summary of every author.
    Summary(Vec<AuthorSummary>),
    /// The mean score of the reviews of a book.
    BookAverage { book: ObjectId, average: Average },
    /// A page of the books that hold the given words.
    Search { words: Vec<Vec<char>>, page: i64, per_page: i64, found: SearchPage },
}

pub ghost enum CacheEntryView {
    Summary(Seq<AuthorSummaryView>),
    BookAverage { book: ObjectId, average: Average },
    Search { words: Seq<Seq<char>>, page: i64, per_page: i64, found: SearchPageView },
}

impl View for CacheEntry {
    type V = CacheEntryView;

    open spec fn view(&self) -> CacheEntryView {
        match self {
            CacheEntry::Summary(rows) => CacheEntryView::Summary(views(rows@)),
            CacheEntry::BookAverage { book, average } => CacheEntryView::BookAverage {
                book: *book,
                average: *average,
            },
            CacheEntry::Search { words, page, per_page, found } => CacheEntryView::Search {
                words: views(words@),
                page: *page,
                per_page: *per_page,
                found: found@,
            },
        }
    }
}

/// The field of an optional text.
pub open spec fn text_or_absent(t: Option<Seq<char>>) -> FieldView {
    match t {
        Some(s) => FieldView::Text(s),
        None => FieldView::Absent,
    }
}

/// Field `k` of the six fields of a summary.
pub open spec fn summary_field(r: AuthorSummaryView, k: int) -> FieldView {
    if k == 0 {
        FieldView::Bytes(r.author_id.bytes@)
    } else if k == 1 {
        FieldView::Text(r.name)
    } else if k == 2 {
        FieldView::Int(r.published_books)
    } else if k == 3 {
        FieldView::Int(r.average_score.total)
    } else if k == 4 {
        FieldView::Int(r.average_score.count)
    } else {
        FieldView::Int(r.total_sales)
    }
}

/// The fields of a list of summaries: six for each.
pub open spec fn summary_fields(rows: Seq<AuthorSummaryView>) -> Seq<FieldView> {
    Seq::new(6 * rows.len(), |j: int| summary_field(rows[j / 6], j % 6))
}

/// Field `k` of the five fields of a search result.
pub open spec fn result_field(r: SearchResultView, k: int) -> FieldView {
    if k == 0 {
        FieldView::Bytes(r.book_id.bytes@)
    } else if k == 1 {
        FieldView::Text(r.title)
    } else if k == 2 {
        FieldView::Text(r.author_name)
    } else if k == 3 {
        text_or_absent(r.summary)
    } else {
        text_or_absent(r.publication_date)
    }
}

/// The fields of a list of search results: five for each.
pub open spec fn result_fields(rows: Seq<SearchResultView>) -> Seq<FieldView> {
    Seq::new(5 * rows.len(), |j: int| result_field(rows[j / 5], j % 5))
}

/// The fields of a list of words: a text for each.
pub open spec fn word_fields(words: Seq<Seq<char>>) -> Seq<FieldView> {
    Seq::new(words.len(), |j: int| FieldView::Text(words[j]))
}

/// The seven fields that a search entry starts with.
pub open spec fn search_head(
    words: Seq<Seq<char>>,
    page: i64,
    per_page: i64,
    found: SearchPageView,
) -> Seq<
    FieldView,
> {
    seq![
        FieldView::Int(3),
        FieldView::Int(page),
        FieldView::Int(per_page),
        FieldView::Int(found.total_results),
        FieldView::Int(found.total_pages),
        FieldView::Int(words.len() as i64),
        FieldView::Int(found.results.len() as i64),
    ]
}

/// The fields of an entry: its kind first, then what it holds.
pub open spec fn entry_fields(e: CacheEntryView) -> Seq<FieldView> {
    match e {
        CacheEntryView::Summary(rows) => seq![FieldView::Int(1), FieldView::Int(rows.len() as i64)]
            + summary_fields(rows),
        CacheEntryView::BookAverage { book, average } => seq![
            FieldView::Int(2),
            FieldView::Bytes(book.bytes@),
            FieldView::Int(average.total),
            FieldView::Int(average.count),
        ],
        CacheEntryView::Search { words, page, per_page, found } => search_head(
            words,
            page,
            per_page,
            found,
        ) + word_fields(words) + result_fields(found.results),
    }
}

/// Whether an optional text fits in a field.
pub open spec fn text_fits(t: Option<Seq<char>>) -> bool {
    t matches Some(s) ==> s.len() <= u64::MAX
}

/// Whether an entry can be written: its counts fit in an `i64` and its
/// texts in their fields.
pub open spec fn entry_fits(e: CacheEntryView) -> bool {
    match e {
        CacheEntryView::Summary(rows) => rows.len() <= i64::MAX && forall|i: int|
            0 <= i < rows.len() ==> (#[trigger] rows[i]).name.len() <= u64::MAX,
        CacheEntryView::BookAverage { book, average } => true,
        CacheEntryView::Search { words, page, per_page, found } => {
            &&& words.len() <= i64::MAX
            &&& found.results.len() <= i64::MAX
            &&& forall|j: int| 0 <= j < words.len() ==> (#[trigger] words[j]).len() <= u64::MAX
            &&& forall|i: int|
                0 <= i < found.results.len() ==> {
                    let r = #[trigger] found.results[i];
                    r.title.len() <= u64::MAX && r.author_name.len() <= u64::MAX && text_fits(
                        r.summary,
                    ) && text_fits(r.publication_date)
                }
        },
    }
}

/// Whether six fields from `at` on are those of a summary.
pub open spec fn is_summary_at(fs: Seq<FieldView>, at: int) -> bool {
    &&& fs[at] is Bytes
    &&& fs[at]->Bytes_0.len() == 12
    &&& fs[at + 1] is Text
    &&& fs[at + 2] is Int
    &&& fs[at + 3] is Int
    &&& fs[at + 4] is Int
    &&& fs[at + 5] is Int
}

/// The summary that six fields from `at` on hold.
pub open spec fn summary_at(fs: Seq<FieldView>, at: int) -> AuthorSummaryView {
    AuthorSummaryView {
        author_id: id_with(fs[at]->Bytes_0),
        name: fs[at + 1]->Text_0,
        published_books: fs[at + 2]->Int_0,
        average_score: Average { total: fs[at + 3]->Int_0, count: fs[at + 4]->Int_0 },
        total_sales: fs[at + 5]->Int_0,
    }
}

/// Whether a field is a text or absent.
pub open spec fn is_optional_text(f: FieldView) -> bool {
    f is Text || f is Absent
}

/// The optional text that a field holds.
pub open spec fn optional_text(f: FieldView) -> Option<Seq<char>> {
    if f is Text {
        Some(f->Text_0)
    } else {
        None
    }
}

/// Whether five fields from `at` on are those of a search result.
pub open spec fn is_result_at(fs: Seq<FieldView>, at: int) -> bool {
    &&& fs[at] is Bytes
    &&& fs[at]->Bytes_0.len() == 12
    &&& fs[at + 1] is Text
    &&& fs[at + 2] is Text
    &&& is_optional_text(fs[at + 3])
    &&& is_optional_text(fs[at + 4])
}

/// The search result that five fields from `at` on hold.
pub open spec fn result_at(fs: Seq<FieldView>, at: int) -> SearchResultView {
    SearchResultView {
        book_id: id_with(fs[at]->Bytes_0),
        title: fs[at + 1]->Text_0,
        author_name: fs[at + 2]->Text_0,
        summary: optional_text(fs[at + 3]),
        publication_date: optional_text(fs[at + 4]),
    }
}

/// Whether `fs` are the fields of a list of summaries.
pub open spec fn is_summary_entry(fs: Seq<FieldView>) -> bool {
    &&& fs.len() >= 2
    &&& fs[0] == FieldView::Int(1)
    &&& fs[1] is Int
    &&& fs[1]->Int_0 >= 0
    &&& fs.len() == 2 + 6 * fs[1]->Int_0
    &&& forall|i: int| 0 <= i < fs[1]->Int_0 ==> is_summary_at(fs, #[trigger] (2 + 6 * i))
}

/// Whether `fs` are the fields of the mean score of a book.
pub open spec fn is_average_entry(fs: Seq<FieldView>) -> bool {
    &&& fs.len() == 4
    &&& fs[0] == FieldView::Int(2)
    &&& fs[1] is Bytes
    &&& fs[1]->Bytes_0.len() == 12
    &&& fs[2] is Int
    &&& fs[3] is Int
}

/// Whether `fs` are the fields of a page of a search.
pub open spec fn is_search_entry(fs: Seq<FieldView>) -> bool {
    &&& fs.len() >= 7
    &&& fs[0] == FieldView::Int(3)
    &&& fs[1] is Int
    &&& fs[2] is Int
    &&& fs[3] is Int
    &&& fs[4] is Int
    &&& fs[5] is Int
    &&& fs[6] is Int
    &&& fs[5]->Int_0 >= 0
    &&& fs[6]->Int_0 >= 0
    &&& fs.len() == 7 + fs[5]->Int_0 + 5 * fs[6]->Int_0
    &&& forall|j: int| 0 <= j < fs[5]->Int_0 ==> (#[trigger] fs[7 + j]) is Text
    &&& forall|i: int|
        0 <= i < fs[6]->Int_0 ==> is_result_at(fs, #[trigger] (7 + fs[5]->Int_0 + 5 * i))
}

/// The entry that `fs` hold, if they hold one.
pub open spec fn entry_of(fs: Seq<FieldView>) -> Option<CacheEntryView> {
    if is_summary_entry(fs) {
        Some(
            CacheEntryView::Summary(
                Seq::new(fs[1]->Int_0 as nat, |i: int| summary_at(fs, 2 + 6 * i)),
            ),
        )
    } else if is_average_entry(fs) {
        Some(
            CacheEntryView::BookAverage {
                book: id_with(fs[1]->Bytes_0),
                average: Average { total: fs[2]->Int_0, count: fs[3]->Int_0 },
            },
        )
    } else if is_search_entry(fs) {
        let nwords = fs[5]->Int_0;
        Some(
            CacheEntryView::Search {
                words: Seq::new(nwords as nat, |j: int| fs[7 + j]->Text_0),
                page: fs[1]->Int_0,
                per_page: fs[2]->Int_0,
                found: SearchPageView {
                    results: Seq::new(
                        fs[6]->Int_0 as nat,
                        |i: int| result_at(fs, 7 + nwords + 5 * i),
                    ),
                    total_results: fs[3]->Int_0,
                    total_pages: fs[4]->Int_0,
                },
            },
        )
    } else {
        None
    }
}

/// The entry that `bytes` spell, if they spell one.
pub open spec fn entry_read(bytes: Seq<u8>) -> Option<CacheEntryView> {
    match fields_of(bytes) {
        Some(fs) => entry_of(fs),
        None => None,
    }
}

/// The bytes of an entry.
pub open spec fn entry_bytes(e: CacheEntryView) -> Seq<u8> {
    crate::fields::fields_bytes(entry_fields(e))
}

/// An entry that fits is read back from its fields.
pub proof fn lemma_entry_fields_round_trip(e: CacheEntryView)
    requires
        entry_fits(e),
    ensures
        entry_of(entry_fields(e)) == Some(e),
        fields_fit(entry_fields(e)),
{
    let fs = entry_fields(e);
    match e {
        CacheEntryView::Summary(rows) => {
            let n = rows.len() as int;
            assert forall|i: int, k: int| 0 <= i < n && 0 <= k < 6 implies #[trigger] fs[2 + 6 * i
                + k] == summary_field(rows[i], k) by {
                assert((6 * i + k) / 6 == i && (6 * i + k) % 6 == k);
                assert(fs[2 + 6 * i + k] == summary_fields(rows)[6 * i + k]);
            }
            assert forall|i: int| 0 <= i < n implies is_summary_at(fs, #[trigger] (2 + 6 * i))
                && summary_at(fs, 2 + 6 * i) == rows[i] by {
                assert(fs[2 + 6 * i + 0] == summary_field(rows[i], 0));
                assert(fs[2 + 6 * i + 1] == summary_field(rows[i], 1));
                assert(fs[2 + 6 * i + 2] == summary_field(rows[i], 2));
                assert(fs[2 + 6 * i + 3] == summary_field(rows[i], 3));
                assert(fs[2 + 6 * i + 4] == summary_field(rows[i], 4));
                assert(fs[2 + 6 * i + 5] == summary_field(rows[i], 5));
                lemma_id_with(rows[i].author_id);
            }
            assert(is_summary_entry(fs));
            let read = Seq::new(n as nat, |i: int| summary_at(fs, 2 + 6 * i));
            assert(read =~= rows);
            assert forall|j: int| 0 <= j < fs.len() implies crate::fields::field_fits(
                #[trigger] fs[j],
            ) by {
                if j >= 2 {
                    let i = (j - 2) / 6;
                    let k = (j - 2) % 6;
                    assert(fs[2 + 6 * i + k] == summary_field(rows[i], k));
                }
            }
        },
        CacheEntryView::BookAverage { book, average } => {
            lemma_id_with(book);
            assert(!is_summary_entry(fs));
            assert(is_average_entry(fs));
        },
        CacheEntryView::Search { words, page, per_page, found } => {
            let nw = words.len() as int;
            let rows = found.results;
            let n = rows.len() as int;
            assert(!is_summary_entry(fs));
            assert(!is_average_entry(fs));
            assert forall|j: int| 0 <= j < nw implies #[trigger] fs[7 + j] == FieldView::Text(
                words[j],
            ) by {
                assert(fs[7 + j] == word_fields(words)[j]);
            }
            assert forall|i: int, k: int| 0 <= i < n && 0 <= k < 5 implies #[trigger] fs[7 + nw + 5
                * i + k] == result_field(rows[i], k) by {
                assert((5 * i + k) / 5 == i && (5 * i + k) % 5 == k);
                assert(fs[7 + nw + 5 * i + k] == result_fields(rows)[5 * i + k]);
            }
            assert forall|i: int| 0 <= i < n implies is_result_at(fs, #[trigger] (7 + nw + 5 * i))
                && result_at(fs, 7 + nw + 5 * i) == rows[i] by {
                assert(fs[7 + nw + 5 * i + 0] == result_field(rows[i], 0));
                assert(fs[7 + nw + 5 * i + 1] == result_field(rows[i], 1));
                assert(fs[7 + nw + 5 * i + 2] == result_field(rows[i], 2));
                assert(fs[7 + nw + 5 * i + 3] == result_field(rows[i], 3));
                assert(fs[7 + nw + 5 * i + 4] == result_field(rows[i], 4));
                lemma_id_with(rows[i].book_id);
            }
            assert(is_search_entry(fs));
            let read_words = Seq::new(nw as nat, |j: int| fs[7 + j]->Text_0);
            assert(read_words =~= words);
            let read_rows = Seq::new(n as nat, |i: int| result_at(fs, 7 + nw + 5 * i));
            assert(read_rows =~= rows);
            assert forall|j: int| 0 <= j < fs.len() implies crate::fields::field_fits(
                #[trigger] fs[j],
            ) by {
                if 7 <= j < 7 + nw {
                    assert(fs[7 + (j - 7)] == FieldView::Text(words[j - 7]));
                } else if j >= 7 + nw {
                    let i = (j - 7 - nw) / 5;
                    let k = (j - 7 - nw) % 5;
                    assert(fs[7 + nw + 5 * i + k] == result_field(rows[i], k));
                    let r = rows[i];
                    assert(text_fits(r.summary) && text_fits(r.publication_date));
                }
            }
        },
    }
}

/// An entry that fits is read back from its bytes.
pub proof fn lemma_entry_round_trip(e: CacheEntryView)
    requires
        entry_fits(e),
    ensures
        entry_read(entry_bytes(e)) == Some(e),
{
    lemma_entry_fields_round_trip(e);
    crate::fields::lemma_fields_round_trip(entry_fields(e));
}

/// Whether the counts of an entry fit in an `i64`.
pub open spec fn counts_fit(e: CacheEntryView) -> bool {
    match e {
        CacheEntryView::Summary(rows) => rows.len() <= i64::MAX,
        CacheEntryView::BookAverage { book, average } => true,
        CacheEntryView::Search { words, page, per_page, found } => words.len() <= i64::MAX
            && found.results.len() <= i64::MAX,
    }
}

/// The field of a text.
fn text_field(t: &str) -> (out: Field)
    ensures
        out@ == FieldView::Text(t@),
        t@.len() <= u64::MAX,
{
    let held = chars_of(t);
    let n = held.len();
    assert(held@.len() == n);
    Field::Text(held)
}

/// The field of an optional text.
fn optional_field(t: &Option<String>) -> (out: Field)
    ensures
        out@ == text_or_absent(text_of(*t)),
        text_fits(text_of(*t)),
{
    match t {
        Some(s) => text_field(s.as_str()),
        None => Field::Absent,
    }
}

/// A copy of `s`.
fn copy_chars(s: &Vec<char>) -> (out: Vec<char>)
    ensures
        out@ == s@,
{
    let mut out: Vec<char> = Vec::new();
    let mut i: usize = 0;
    while i < s.len()
        invariant
            i <= s.len(),
            out@ == s@.take(i as int),
        decreases s.len() - i,
    {
        out.push(s[i]);
        proof {
            assert(s@.take(i as int + 1) =~= s@.take(i as int).push(s@[i as int]));
        }
        i += 1;
    }
    proof {
        assert(s@.take(s.len() as int) =~= s@);
    }
    out
}

/// Appends the six fields of each summary to `out`.
fn put_summaries(out: &mut Vec<Field>, rows: &Vec<AuthorSummary>)
    ensures
        views(final(out)@) == views(old(out)@) + summary_fields(views(rows@)),
        forall|i: int| 0 <= i < rows.len() ==> (#[trigger] views(rows@)[i]).name.len() <= u64::MAX,
{
    let ghost all = views(rows@);
    let ghost start = views(out@);
    let mut i: usize = 0;
    proof {
        assert(start + summary_fields(all.take(0)) =~= start);
    }
    while i < rows.len()
        invariant
            i <= rows.len(),
            all == views(rows@),
            start == views(old(out)@),
            views(out@) == start + summary_fields(all.take(i as int)),
            forall|k: int| 0 <= k < i ==> (#[trigger] all[k]).name.len() <= u64::MAX,
        decreases rows.len() - i,
    {
        let r = &rows[i];
        let ghost before = views(out@);
        let f0 = Field::Bytes(r.author_id.to_vec());
        let f1 = text_field(r.name.as_str());
        let f2 = Field::Int(r.published_books);
        let f3 = Field::Int(r.average_score.total);
        let f4 = Field::Int(r.average_score.count);
        let f5 = Field::Int(r.total_sales);
        proof {
            assert(all[i as int] == rows@[i as int]@);
            lemma_views_push(out@, f0);
            lemma_views_push(out@.push(f0), f1);
            lemma_views_push(out@.push(f0).push(f1), f2);
            lemma_views_push(out@.push(f0).push(f1).push(f2), f3);
            lemma_views_push(out@.push(f0).push(f1).push(f2).push(f3), f4);
            lemma_views_push(out@.push(f0).push(f1).push(f2).push(f3).push(f4), f5);
            let wide = summary_fields(all.take(i as int + 1));
            let narrow = summary_fields(all.take(i as int));
            let six = seq![f0@, f1@, f2@, f3@, f4@, f5@];
            assert(wide =~= narrow + six) by {
                assert forall|j: int| 0 <= j < wide.len() implies wide[j] == (narrow + six)[j] by {
                    if j < 6 * i {
                        assert(j / 6 < i);
                        assert(all.take(i as int + 1)[j / 6] == all.take(i as int)[j / 6]);
                    } else {
                        assert(j / 6 == i && j % 6 == j - 6 * i);
                        assert(all.take(i as int + 1)[i as int] == all[i as int]);
                    }
                }
            }
            assert(before.push(f0@).push(f1@).push(f2@).push(f3@).push(f4@).push(f5@) =~= start
                + wide);
        }
        out.push(f0);
        out.push(f1);
        out.push(f2);
        out.push(f3);
        out.push(f4);
        out.push(f5);
        i += 1;
    }
    proof {
        assert(all.take(rows.len() as int) =~= all);
    }
}

/// Appends the five fields of each search result to `out`.
fn put_results(out: &mut Vec<Field>, rows: &Vec<SearchResult>)
    ensures
        views(final(out)@) == views(old(out)@) + result_fields(views(rows@)),
        forall|i: int|
            0 <= i < rows.len() ==> {
                let r = #[trigger] views(rows@)[i];
                r.title.len() <= u64::MAX && r.author_name.len() <= u64::MAX && text_fits(r.summary)
                    && text_fits(r.publication_date)
            },
{
    let ghost all = views(rows@);
    let ghost start = views(out@);
    let mut i: usize = 0;
    proof {
        assert(start + result_fields(all.take(0)) =~= start);
    }
    while i < rows.len()
        invariant
            i <= rows.len(),
            all == views(rows@),
            start == views(old(out)@),
            views(out@) == start + result_fields(all.take(i as int)),
            forall|k: int|
                0 <= k < i ==> {
                    let r = #[trigger] all[k];
                    r.title.len() <= u64::MAX && r.author_name.len() <= u64::MAX && text_fits(
                        r.summary,
                    ) && text_fits(r.publication_date)
                },
        decreases rows.len() - i,
    {
        let r = &rows[i];
        let ghost before = views(out@);
        let f0 = Field::Bytes(r.book_id.to_vec());
        let f1 = text_field(r.title.as_str());
        let f2 = text_field(r.author_name.as_str());
        let f3 = optional_field(&r.summary);
        let f4 = optional_field(&r.publication_date);
        proof {
            assert(all[i as int] == rows@[i as int]@);
            lemma_views_push(out@, f0);
            lemma_views_push(out@.push(f0), f1);
            lemma_views_push(out@.push(f0).push(f1), f2);
            lemma_views_push(out@.push(f0).push(f1).push(f2), f3);
            lemma_views_push(out@.push(f0).push(f1).push(f2).push(f3), f4);
            let wide = result_fields(all.take(i as int + 1));
            let narrow = result_fields(all.take(i as int));
            let five = seq![f0@, f1@, f2@, f3@, f4@];
            assert(wide =~= narrow + five) by {
                assert forall|j: int| 0 <= j < wide.len() implies wide[j] == (narrow + five)[j] by {
                    if j < 5 * i {
                        assert(j / 5 < i);
                        assert(all.take(i as int + 1)[j / 5] == all.take(i as int)[j / 5]);
                    } else {
                        assert(j / 5 == i && j % 5 == j - 5 * i);
                        assert(all.take(i as int + 1)[i as int] == all[i as int]);
                    }
                }
            }
            assert(before.push(f0@).push(f1@).push(f2@).push(f3@).push(f4@) =~= start + wide);
        }
        out.push(f0);
        out.push(f1);
        out.push(f2);
        out.push(f3);
        out.push(f4);
        i += 1;
    }
    proof {
        assert(all.take(rows.len() as int) =~= all);
    }
}

/// Appends a text field for each word to `out`.
fn put_words(out: &mut Vec<Field>, words: &Vec<Vec<char>>)
    ensures
        views(final(out)@) == views(old(out)@) + word_fields(views(words@)),
        forall|j: int| 0 <= j < words.len() ==> (#[trigger] views(words@)[j]).len() <= u64::MAX,
{
    let ghost all = views(words@);
    let ghost start = views(out@);
    let mut j: usize = 0;
    proof {
        assert(start + word_fields(all.take(0)) =~= start);
    }
    while j < words.len()
        invariant
            j <= words.len(),
            all == views(words@),
            start == views(old(out)@),
            views(out@) == start + word_fields(all.take(j as int)),
            forall|k: int| 0 <= k < j ==> (#[trigger] all[k]).len() <= u64::MAX,
        decreases words.len() - j,
    {
        let n = words[j].len();
        let f = Field::Text(copy_chars(&words[j]));
        proof {
            assert(words@[j as int]@.len() == n);
            assert(all[j as int] == words@[j as int]@);
            lemma_views_push(out@, f);
            assert(word_fields(all.take(j as int + 1)) =~= word_fields(all.take(j as int)).push(
                f@,
            ));
            assert(views(out@).push(f@) =~= start + word_fields(all.take(j as int + 1)));
        }
        out.push(f);
        j += 1;
    }
    proof {
        assert(all.take(words.len() as int) =~= all);
    }
}

/// The bytes of an entry, unless one of its counts does not fit in an
/// `i64`.
pub fn encode_entry(e: &CacheEntry) -> (out: Option<Vec<u8>>)
    ensures
        out is Some <==> counts_fit(e@),
        out matches Some(bytes) ==> bytes@ == entry_bytes(e@) && entry_fits(e@),
{
    let mut fields: Vec<Field> = Vec::new();
    match e {
        CacheEntry::Summary(rows) => {
            if rows.len() as u64 > i64::MAX as u64 {
                return None;
            }
            fields.push(Field::Int(1));
            fields.push(Field::Int(rows.len() as i64));
            proof {
                assert(views(fields@) =~= seq![
                    FieldView::Int(1),
                    FieldView::Int(views(rows@).len() as i64),
                ]);
            }
            put_summaries(&mut fields, rows);
        },
        CacheEntry::BookAverage { book, average } => {
            fields.push(Field::Int(2));
            fields.push(Field::Bytes(book.to_vec()));
            fields.push(Field::Int(average.total));
            fields.push(Field::Int(average.count));
            proof {
                assert(views(fields@) =~= entry_fields(e@));
            }
        },
        CacheEntry::Search { words, page, per_page, found } => {
            if words.len() as u64 > i64::MAX as u64
                || found.results.len() as u64 > i64::MAX as u64 {
                return None;
            }
            fields.push(Field::Int(3));
            fields.push(Field::Int(*page));
            fields.push(Field::Int(*per_page));
            fields.push(Field::Int(found.total_results));
            fields.push(Field::Int(found.total_pages));
            fields.push(Field::Int(words.len() as i64));
            fields.push(Field::Int(found.results.len() as i64));
            proof {
                assert(views(fields@) =~= search_head(views(words@), *page, *per_page, found@));
            }
            put_words(&mut fields, words);
            put_results(&mut fields, &found.results);
        },
    }
    Some(encode_fields(&fields))
}

/// The number in field `i`, if that field is a number.
fn int_at(fields: &Vec<Field>, i: usize) -> (out: Option<i64>)
    requires
        i < fields.len(),
    ensures
        out is Some <==> views(fields@)[i as int] is Int,
        out matches Some(x) ==> views(fields@)[i as int]->Int_0 == x,
{
    proof {
        assert(views(fields@)[i as int] == fields@[i as int]@);
    }
    match &fields[i] {
        Field::Int(x) => Some(*x),
        _ => None,
    }
}

/// The text in field `i`, if that field is a text.
fn text_at(fields: &Vec<Field>, i: usize) -> (out: Option<String>)
    requires
        i < fields.len(),
    ensures
        out is Some <==> views(fields@)[i as int] is Text,
        out matches Some(t) ==> views(fields@)[i as int]->Text_0 == t@,
{
    proof {
        assert(views(fields@)[i as int] == fields@[i as int]@);
    }
    match &fields[i] {
        Field::Text(s) => Some(string_of(s)),
        _ => None,
    }
}

/// The optional text in field `i`, if that field is a text or absent.
fn optional_text_at(fields: &Vec<Field>, i: usize) -> (out: Option<Option<String>>)
    requires
        i < fields.len(),
    ensures
        out is Some <==> is_optional_text(views(fields@)[i as int]),
        out matches Some(t) ==> optional_text(views(fields@)[i as int]) == text_of(t),
{
    proof {
        assert(views(fields@)[i as int] == fields@[i as int]@);
    }
    match &fields[i] {
        Field::Text(s) => Some(Some(string_of(s))),
        Field::Absent => Some(None),
        _ => None,
    }
}

/// The identifier in field `i`, if that field is twelve bytes.
fn id_at(fields: &Vec<Field>, i: usize) -> (out: Option<ObjectId>)
    requires
        i < fields.len(),
    ensures
        out is Some <==> views(fields@)[i as int] is Bytes && views(
            fields@,
        )[i as int]->Bytes_0.len() == 12,
        out matches Some(id) ==> id == id_with(views(fields@)[i as int]->Bytes_0),
{
    proof {
        assert(views(fields@)[i as int] == fields@[i as int]@);
    }
    match &fields[i] {
        Field::Bytes(b) => ObjectId::from_slice(b.as_slice()),
        _ => None,
    }
}

/// The summary in the six fields from `at` on, if they hold one.
fn read_summary(fields: &Vec<Field>, at: usize) -> (out: Option<AuthorSummary>)
    requires
        at + 6 <= fields.len(),
    ensures
        out is Some <==> is_summary_at(views(fields@), at as int),
        out matches Some(r) ==> r@ == summary_at(views(fields@), at as int),
{
    let author_id = match id_at(fields, at) {
        Some(x) => x,
        None => {
            return None;
        },
    };
    let name = match text_at(fields, at + 1) {
        Some(x) => x,
        None => {
            return None;
        },
    };
    let published_books = match int_at(fields, at + 2) {
        Some(x) => x,
        None => {
            return None;
        },
    };
    let total = match int_at(fields, at + 3) {
        Some(x) => x,
        None => {
            return None;
        },
    };
    let count = match int_at(fields, at + 4) {
        Some(x) => x,
        None => {
            return None;
        },
    };
    let total_sales = match int_at(fields, at + 5) {
        Some(x) => x,
        None => {
            return None;
        },
    };
    Some(
        AuthorSummary {
            author_id,
            name,
            published_books,
            average_score: Average { total, count },
            total_sales,
        },
    )
}

/// The search result in the five fields from `at` on, if they hold one.
fn read_result(fields: &Vec<Field>, at: usize) -> (out: Option<SearchResult>)
    requires
        at + 5 <= fields.len(),
    ensures
        out is Some <==> is_result_at(views(fields@), at as int),
        out matches Some(r) ==> r@ == result_at(views(fields@), at as int),
{
    let book_id = match id_at(fields, at) {
        Some(x) => x,
        None => {
            return None;
        },
    };
    let title = match text_at(fields, at + 1) {
        Some(x) => x,
        None => {
            return None;
        },
    };
    let author_name = match text_at(fields, at + 2) {
        Some(x) => x,
        None => {
            return None;
        },
    };
    let summary = match optional_text_at(fields, at + 3) {
        Some(x) => x,
        None => {
            return None;
        },
    };
    let publication_date = match optional_text_at(fields, at + 4) {
        Some(x) => x,
        None => {
            return None;
        },
    };
    Some(SearchResult { book_id, title, author_name, summary, publication_date })
}

/// The list of summaries that the fields hold, if they hold one.
fn read_summary_entry(fields: &Vec<Field>) -> (out: Option<Vec<AuthorSummary>>)
    ensures
        out is Some <==> is_summary_entry(views(fields@)),
        out matches Some(rows) ==> Some(CacheEntryView::Summary(views(rows@))) == entry_of(
            views(fields@),
        ),
{
    let ghost fs = views(fields@);
    if fields.len() < 2 {
        return None;
    }
    match int_at(fields, 0) {
        Some(kind) => {
            if kind != 1 {
                return None;
            }
        },
        None => {
            return None;
        },
    }
    let n = match int_at(fields, 1) {
        Some(x) => x,
        None => {
            return None;
        },
    };
    if n < 0 {
        return None;
    }
    let room: usize = fields.len() - 2;
    if room % 6 != 0 || (room / 6) as u64 != n as u64 {
        return None;
    }
    let count: usize = room / 6;
    let mut rows: Vec<AuthorSummary> = Vec::new();
    let mut i: usize = 0;
    while i < count
        invariant
            i <= count,
            fs == views(fields@),
            fields.len() == 2 + 6 * count,
            rows.len() == i,
            forall|k: int| 0 <= k < i ==> is_summary_at(fs, #[trigger] (2 + 6 * k)),
            forall|k: int| 0 <= k < i ==> (#[trigger] rows@[k])@ == summary_at(fs, 2 + 6 * k),
        decreases count - i,
    {
        match read_summary(fields, 2 + 6 * i) {
            Some(r) => {
                rows.push(r);
            },
            None => {
                proof {
                    assert(!is_summary_at(fs, 2 + 6 * i));
                }
                return None;
            },
        }
        i += 1;
    }
    proof {
        assert(views(rows@) =~= Seq::new(n as nat, |i: int| summary_at(fs, 2 + 6 * i)));
    }
    Some(rows)
}

/// The page of a search that the fields hold, if they hold one.
fn read_search_entry(fields: &Vec<Field>) -> (out: Option<CacheEntry>)
    ensures
        out is Some <==> is_search_entry(views(fields@)),
        out matches Some(e) ==> !is_summary_entry(views(fields@)) && !is_average_entry(
            views(fields@),
        ) && Some(e@) == entry_of(views(fields@)),
{
    let ghost fs = views(fields@);
    if fields.len() < 7 {
        return None;
    }
    match int_at(fields, 0) {
        Some(kind) => {
            if kind != 3 {
                return None;
            }
        },
        None => {
            return None;
        },
    }
    let page = match int_at(fields, 1) {
        Some(x) => x,
        None => {
            return None;
        },
    };
    let per_page = match int_at(fields, 2) {
        Some(x) => x,
        None => {
            return None;
        },
    };
    let total_results = match int_at(fields, 3) {
        Some(x) => x,
        None => {
            return None;
        },
    };
    let total_pages = match int_at(fields, 4) {
        Some(x) => x,
        None => {
            return None;
        },
    };
    let nwords = match int_at(fields, 5) {
        Some(x) => x,
        None => {
            return None;
        },
    };
    let nrows = match int_at(fields, 6) {
        Some(x) => x,
        None => {
            return None;
        },
    };
    if nwords < 0 || nrows < 0 {
        return None;
    }
    let room: usize = fields.len() - 7;
    if nwords as u64 > room as u64 {
        return None;
    }
    let word_count: usize = nwords as usize;
    let rest: usize = room - word_count;
    if rest % 5 != 0 || (rest / 5) as u64 != nrows as u64 {
        return None;
    }
    let row_count: usize = rest / 5;
    let mut words: Vec<Vec<char>> = Vec::new();
    let mut j: usize = 0;
    while j < word_count
        invariant
            j <= word_count,
            fs == views(fields@),
            7 + word_count <= fields.len(),
            fs[5] is Int,
            fs[5]->Int_0 == word_count,
            words.len() == j,
            forall|k: int| 0 <= k < j ==> (#[trigger] fs[7 + k]) is Text,
            forall|k: int| 0 <= k < j ==> (#[trigger] words@[k])@ == fs[7 + k]->Text_0,
        decreases word_count - j,
    {
        proof {
            assert(fs[7 + j] == fields@[7 + j]@);
        }
        match &fields[7 + j] {
            Field::Text(s) => {
                words.push(copy_chars(s));
            },
            _ => {
                proof {
                    assert(!(fs[7 + j] is Text));
                }
                return None;
            },
        }
        j += 1;
    }
    let mut results: Vec<SearchResult> = Vec::new();
    let mut i: usize = 0;
    while i < row_count
        invariant
            i <= row_count,
            fs == views(fields@),
            fields.len() == 7 + word_count + 5 * row_count,
            fs[5] is Int,
            fs[5]->Int_0 == word_count,
            fs[6] is Int,
            fs[6]->Int_0 == row_count,
            nwords == word_count,
            results.len() == i,
            forall|k: int| 0 <= k < i ==> is_result_at(fs, #[trigger] (7 + word_count + 5 * k)),
            forall|k: int|
                0 <= k < i ==> (#[trigger] results@[k])@ == result_at(
                    fs,
                    7 + word_count + 5 * k,
                ),
        decreases row_count - i,
    {
        match read_result(fields, 7 + word_count + 5 * i) {
            Some(r) => {
                results.push(r);
            },
            None => {
                proof {
                    assert(!is_result_at(fs, 7 + nwords + 5 * i));
                }
                return None;
            },
        }
        i += 1;
    }
    proof {
        assert(views(words@) =~= Seq::new(nwords as nat, |j: int| fs[7 + j]->Text_0));
        assert(views(results@) =~= Seq::new(
            nrows as nat,
            |i: int| result_at(fs, 7 + nwords + 5 * i),
        ));
    }
    Some(
        CacheEntry::Search {
            words,
            page,
            per_page,
            found: SearchPage { results, total_results, total_pages },
        },
    )
}

/// The mean score that the fields hold, if they hold one.
fn read_average_entry(fields: &Vec<Field>) -> (out: Option<CacheEntry>)
    ensures
        out is Some <==> is_average_entry(views(fields@)),
        out matches Some(e) ==> !is_summary_entry(views(fields@)) && Some(e@) == entry_of(
            views(fields@),
        ),
{
    if fields.len() != 4 {
        return None;
    }
    match int_at(fields, 0) {
        Some(kind) => {
            if kind != 2 {
                return None;
            }
        },
        None => {
            return None;
        },
    }
    let book = match id_at(fields, 1) {
        Some(x) => x,
        None => {
            return None;
        },
    };
    let total = match int_at(fields, 2) {
        Some(x) => x,
        None => {
            return None;
        },
    };
    let count = match int_at(fields, 3) {
        Some(x) => x,
        None => {
            return None;
        },
    };
    Some(CacheEntry::BookAverage { book, average: Average { total, count } })
}

/// The entry that `bytes` spell, if they spell one.
pub fn decode_entry(bytes: &[u8]) -> (out: Option<CacheEntry>)
    ensures
        entry_read(bytes@) is None ==> out is None,
        entry_read(bytes@) matches Some(v) ==> out matches Some(e) && e@ == v,
{
    let fields = match decode_fields(bytes) {
        Some(x) => x,
        None => {
            return None;
        },
    };
    match read_summary_entry(&fields) {
        Some(rows) => {
            return Some(CacheEntry::Summary(rows));
        },
        None => {},
    }
    match read_average_entry(&fields) {
        Some(e) => {
            return Some(e);
        },
        None => {},
    }
    read_search_entry(&fields)
}

} // verus!
