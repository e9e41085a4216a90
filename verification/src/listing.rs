//! Lists of the documents of a collection, by what a request asks for.

use crate::measures::{author_name, book_position};
use crate::models::{BookView, Sale};
use crate::object_id::ObjectId;
use crate::seqs::{positions, views};
use crate::store::{find_author, find_book, has_author, has_book, same_id, Store, StoreView};
use crate::text::{chars_of, contains, has_substring, lower, to_lower};
use vstd::prelude::*;
use vstd::string::StringExecFns;

verus! {

/// Whether `text` holds `wanted`, whatever the case of the letters; every
/// text does where nothing is wanted.
pub open spec fn text_holds(text: Seq<char>, wanted: Option<Seq<char>>) -> bool {
    wanted matches Some(w) ==> contains(lower(text), lower(w))
}

/// The positions as whole numbers.
pub open spec fn as_positions(at: Seq<usize>) -> Seq<int> {
    Seq::new(at.len(), |k: int| at[k] as int)
}

/// The positions in `texts` of the texts that hold `wanted`, whatever the
/// case of the letters.
pub open spec fn holding(texts: Seq<Seq<char>>, wanted: Option<Seq<char>>) -> Seq<int> {
    positions(texts.len()).filter(|i: int| text_holds(texts[i], wanted))
}

/// The positions in `texts` of the texts that hold `wanted`.
pub fn positions_holding(texts: &Vec<Vec<char>>, wanted: Option<&str>) -> (out: Vec<usize>)
    ensures
        as_positions(out@) == holding(
            views(texts@),
            match wanted {
                Some(w) => Some(w@),
                None => None,
            },
        ),
{
    let ghost all = views(texts@);
    let ghost asked: Option<Seq<char>> = match wanted {
        Some(w) => Some(w@),
        None => None,
    };
    let ghost keep = |i: int| text_holds(all[i], asked);
    let ghost every = positions(all.len());
    let needle: Option<Vec<char>> = match wanted {
        Some(w) => Some(to_lower(&chars_of(w))),
        None => None,
    };
    let mut out: Vec<usize> = Vec::new();
    let mut i: usize = 0;
    proof {
        reveal(Seq::filter);
        assert(as_positions(out@) =~= every.take(0).filter(keep));
    }
    while i < texts.len()
        invariant
            i <= texts.len(),
            all == views(texts@),
            every == positions(all.len()),
            keep == |i: int| text_holds(all[i], asked),
            needle is Some <==> asked is Some,
            needle matches Some(n) ==> n@ == lower(asked->0),
            as_positions(out@) == every.take(i as int).filter(keep),
        decreases texts.len() - i,
    {
        let held = match &needle {
            Some(n) => has_substring(&to_lower(&texts[i]), n),
            None => true,
        };
        proof {
            assert(all[i as int] == texts@[i as int]@);
            assert(every.take(i as int + 1) =~= every.take(i as int).push(i as int));
            every.take(i as int).lemma_filter_push(i as int, keep);
            assert(held == keep(i as int));
            if held {
                assert(as_positions(out@.push(i)) =~= as_positions(out@).push(i as int));
            }
        }
        if held {
            out.push(i);
        }
        i += 1;
    }
    proof {
        assert(every.take(all.len() as int) =~= every);
    }
    out
}

/// The title of the book `id`, or `(unknown)` where the store does not
/// hold the book.
pub open spec fn title_or_unknown(books: Seq<BookView>, id: ObjectId) -> Seq<char> {
    if has_book(books, id) {
        books[book_position(books, id)].title
    } else {
        "(unknown)"@
    }
}

/// The name of the author `id`, or `(unknown)` where the store does not
/// hold the author.
pub open spec fn name_or_unknown(st: StoreView, id: ObjectId) -> Seq<char> {
    if has_author(st.authors, id) {
        author_name(st.authors, id)
    } else {
        "(unknown)"@
    }
}

impl Store {
    /// The positions of the authors whose name holds `q`, whatever the
    /// case of the letters; of all authors where `q` is `None`.
    pub fn authors_named(&self, q: Option<&str>) -> (out: Vec<usize>)
        ensures
            as_positions(out@) == holding(
                Seq::new(self@.authors.len(), |i: int| self@.authors[i].name),
                match q {
                    Some(w) => Some(w@),
                    None => None,
                },
            ),
    {
        let authors = self.authors();
        let mut texts: Vec<Vec<char>> = Vec::new();
        let mut i: usize = 0;
        while i < authors.len()
            invariant
                i <= authors.len(),
                views(authors@) == self@.authors,
                texts.len() == i,
                forall|k: int| 0 <= k < i ==> (#[trigger] texts@[k])@ == self@.authors[k].name,
            decreases authors.len() - i,
        {
            proof {
                assert(self@.authors[i as int] == authors@[i as int]@);
            }
            texts.push(chars_of(authors[i].name.as_str()));
            i += 1;
        }
        proof {
            assert(views(texts@) =~= Seq::new(
                self@.authors.len(),
                |i: int| self@.authors[i].name,
            ));
        }
        positions_holding(&texts, q)
    }

    /// The positions of the books whose title holds `q`, whatever the case
    /// of the letters; of all books where `q` is `None`.
    pub fn books_titled(&self, q: Option<&str>) -> (out: Vec<usize>)
        ensures
            as_positions(out@) == holding(
                Seq::new(self@.books.len(), |i: int| self@.books[i].title),
                match q {
                    Some(w) => Some(w@),
                    None => None,
                },
            ),
    {
        let books = self.books();
        let mut texts: Vec<Vec<char>> = Vec::new();
        let mut i: usize = 0;
        while i < books.len()
            invariant
                i <= books.len(),
                views(books@) == self@.books,
                texts.len() == i,
                forall|k: int| 0 <= k < i ==> (#[trigger] texts@[k])@ == self@.books[k].title,
            decreases books.len() - i,
        {
            proof {
                assert(self@.books[i as int] == books@[i as int]@);
            }
            texts.push(chars_of(books[i].title.as_str()));
            i += 1;
        }
        proof {
            assert(views(texts@) =~= Seq::new(self@.books.len(), |i: int| self@.books[i].title));
        }
        positions_holding(&texts, q)
    }

    /// The positions of the reviews whose text holds `q`, whatever the
    /// case of the letters; of all reviews where `q` is `None`.
    pub fn reviews_saying(&self, q: Option<&str>) -> (out: Vec<usize>)
        ensures
            as_positions(out@) == holding(
                Seq::new(self@.reviews.len(), |i: int| self@.reviews[i].text),
                match q {
                    Some(w) => Some(w@),
                    None => None,
                },
            ),
    {
        let reviews = self.reviews();
        let mut texts: Vec<Vec<char>> = Vec::new();
        let mut i: usize = 0;
        while i < reviews.len()
            invariant
                i <= reviews.len(),
                views(reviews@) == self@.reviews,
                texts.len() == i,
                forall|k: int| 0 <= k < i ==> (#[trigger] texts@[k])@ == self@.reviews[k].text,
            decreases reviews.len() - i,
        {
            proof {
                assert(self@.reviews[i as int] == reviews@[i as int]@);
            }
            texts.push(chars_of(reviews[i].text.as_str()));
            i += 1;
        }
        proof {
            assert(views(texts@) =~= Seq::new(
                self@.reviews.len(),
                |i: int| self@.reviews[i].text,
            ));
        }
        positions_holding(&texts, q)
    }

    /// The positions of the sales of the book that `q_book` names and of
    /// the year `q_year`, where these are given. A `q_book` that is not an
    /// identifier asks for no book.
    pub fn sales_of(&self, q_book: Option<&str>, q_year: Option<i32>) -> (out: Vec<usize>)
        ensures
            exists|book: Option<ObjectId>|
                {
                    &&& book is Some <==> q_book is Some && crate::object_id::is_hex_id(
                        q_book->0@,
                    )
                    &&& book matches Some(b) ==> forall|i: int|
                        0 <= i < 12 ==> b.bytes@[i] == crate::object_id::hex_byte(q_book->0@, i)
                    &&& as_positions(out@) == #[trigger] sales_asked(self@.sales, book, q_year)
                },
    {
        let book: Option<ObjectId> = match q_book {
            Some(text) => ObjectId::parse_str(text),
            None => None,
        };
        let sales = self.sales();
        let ghost keep = sale_is_asked(sales@, book, q_year);
        let ghost every = positions(sales@.len());
        let mut out: Vec<usize> = Vec::new();
        let mut i: usize = 0;
        proof {
            reveal(Seq::filter);
            assert(as_positions(out@) =~= every.take(0).filter(keep));
        }
        while i < sales.len()
            invariant
                i <= sales.len(),
                sales@ == self@.sales,
                every == positions(sales@.len()),
                keep == sale_is_asked(sales@, book, q_year),
                as_positions(out@) == every.take(i as int).filter(keep),
            decreases sales.len() - i,
        {
            let of_book = match &book {
                Some(b) => same_id(&sales[i].book_id, b),
                None => true,
            };
            let of_year = match q_year {
                Some(y) => sales[i].year == y,
                None => true,
            };
            proof {
                assert(every.take(i as int + 1) =~= every.take(i as int).push(i as int));
                every.take(i as int).lemma_filter_push(i as int, keep);
                if of_book && of_year {
                    assert(as_positions(out@.push(i)) =~= as_positions(out@).push(i as int));
                }
            }
            if of_book && of_year {
                out.push(i);
            }
            i += 1;
        }
        proof {
            assert(every.take(sales@.len() as int) =~= every);
            assert(as_positions(out@) == sales_asked(self@.sales, book, q_year));
        }
        out
    }

    /// The title of the book `id`, or `(unknown)`.
    pub fn title_of_book(&self, id: &ObjectId) -> (out: String)
        requires
            self@.wf(),
        ensures
            out@ == title_or_unknown(self@.books, *id),
    {
        let books = self.books();
        match find_book(books, id) {
            Some(at) => {
                proof {
                    let all = self@.books;
                    assert(all[at as int] == books@[at as int]@);
                    let p = book_position(all, *id);
                    if p < at {
                        assert(all[p].id != all[at as int].id);
                    } else if at < p {
                        assert(all[at as int].id != all[p].id);
                    }
                }
                books[at].title.clone()
            },
            None => String::from_str("(unknown)"),
        }
    }

    /// The name of the author `id`, or `(unknown)`.
    pub fn name_of_author(&self, id: &ObjectId) -> (out: String)
        requires
            self@.wf(),
        ensures
            out@ == name_or_unknown(self@, *id),
    {
        let authors = self.authors();
        match find_author(authors, id) {
            Some(at) => {
                proof {
                    let all = self@.authors;
                    assert(all[at as int] == authors@[at as int]@);
                    let p = crate::measures::author_position(all, *id);
                    if p < at {
                        assert(all[p].id != all[at as int].id);
                    } else if at < p {
                        assert(all[at as int].id != all[p].id);
                    }
                }
                authors[at].name.clone()
            },
            None => String::from_str("(unknown)"),
        }
    }
}

/// The test that keeps the positions of the sales of `book` and of `year`,
/// where these are given.
pub open spec fn sale_is_asked(
    sales: Seq<Sale>,
    book: Option<ObjectId>,
    year: Option<i32>,
) -> spec_fn(
    int,
) -> bool {
    |i: int|
        (book matches Some(b) ==> sales[i].book_id == b) && (year matches Some(y) ==> sales[i].year
            == y)
}

/// The positions of the sales of `book` and of `year`, where these are
/// given.
pub open spec fn sales_asked(sales: Seq<Sale>, book: Option<ObjectId>, year: Option<i32>) -> Seq<
    int,
> {
    positions(sales.len()).filter(sale_is_asked(sales, book, year))
}

} // verus!
