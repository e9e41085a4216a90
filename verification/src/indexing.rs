//! Telling the search index of what the store holds.

use crate::cache::Cache;
use crate::changes::{books_of, review_position};
use crate::db::AppState;
use crate::listing::name_or_unknown;
use crate::measures::book_position;
use crate::models::{
    clone_text, BookSearchDoc, BookSearchDocView, ReviewSearchDoc, ReviewSearchDocView,
};
use crate::object_id::{hex_of, ObjectId};
use crate::search::{lemma_took_one_more, took_all, SearchEngine};
use crate::seqs::{lemma_views_push, views};
use crate::store::{find_book, find_review, has_book, has_review, StoreView};
use vstd::prelude::*;

verus! {

/// What the index is told: to take a document in place of what it held
/// under the identifier of that document, or to let go of what it holds
/// under an identifier.
#[derive(Debug, Clone)]
pub enum IndexChange {
    PutBook(BookSearchDoc),
    DropBook(String),
    PutReview(ReviewSearchDoc),
    DropReview(String),
}

pub ghost enum IndexChangeView {
    PutBook(BookSearchDocView),
    DropBook(Seq<char>),
    PutReview(ReviewSearchDocView),
    DropReview(Seq<char>),
}

impl View for IndexChange {
    type V = IndexChangeView;

    open spec fn view(&self) -> IndexChangeView {
        match self {
            IndexChange::PutBook(doc) => IndexChangeView::PutBook(doc@),
            IndexChange::DropBook(id) => IndexChangeView::DropBook(id@),
            IndexChange::PutReview(doc) => IndexChangeView::PutReview(doc@),
            IndexChange::DropReview(id) => IndexChangeView::DropReview(id@),
        }
    }
}

/// What the index is told of the book `id`: the book as the store holds
/// it, with the name of its author; or that it went, where the store holds
/// none.
pub open spec fn book_change(st: StoreView, id: ObjectId) -> IndexChangeView {
    if has_book(st.books, id) {
        let b = st.books[book_position(st.books, id)];
        IndexChangeView::PutBook(
            BookSearchDocView {
                book_id: hex_of(id.bytes@),
                title: b.title,
                summary: b.summary,
                author_name: name_or_unknown(st, b.author_id),
                publication_date: b.publication_date,
            },
        )
    } else {
        IndexChangeView::DropBook(hex_of(id.bytes@))
    }
}

/// What the index is told of the review `id`: the review as the store
/// holds it; or that it went, where the store holds none.
pub open spec fn review_change(st: StoreView, id: ObjectId) -> IndexChangeView {
    if has_review(st.reviews, id) {
        let r = st.reviews[review_position(st.reviews, id)];
        IndexChangeView::PutReview(
            ReviewSearchDocView {
                review_id: hex_of(id.bytes@),
                book_id: hex_of(r.book_id.bytes@),
                text: r.text,
                score: r.score,
            },
        )
    } else {
        IndexChangeView::DropReview(hex_of(id.bytes@))
    }
}

/// What the index is told of the books `ids`: of each what `book_change`
/// says, in the order of `ids`.
pub open spec fn book_changes(st: StoreView, ids: Seq<ObjectId>) -> Seq<IndexChangeView> {
    ids.map_values(|id: ObjectId| book_change(st, id))
}

/// What the index is told when the books `ids` went: of each that it
/// went, in the order of `ids`.
pub open spec fn book_drops(ids: Seq<ObjectId>) -> Seq<IndexChangeView> {
    ids.map_values(|id: ObjectId| IndexChangeView::DropBook(hex_of(id.bytes@)))
}

impl<C: Cache, S: SearchEngine> AppState<C, S> {
    /// What the index is to be told of the book `id`.
    pub fn change_of_book(&self, id: &ObjectId) -> (out: IndexChange)
        requires
            self.store().wf(),
        ensures
            out@ == book_change(self.store(), *id),
    {
        let books = self.db.books();
        match find_book(books, id) {
            Some(at) => {
                let book = &books[at];
                proof {
                    let all = self.store().books;
                    assert(all[at as int] == books@[at as int]@);
                    let p = book_position(all, *id);
                    if p < at {
                        assert(all[p].id != all[at as int].id);
                    } else if at < p {
                        assert(all[at as int].id != all[p].id);
                    }
                }
                IndexChange::PutBook(
                    BookSearchDoc {
                        book_id: book.id.to_hex(),
                        title: book.title.clone(),
                        summary: clone_text(&book.summary),
                        author_name: self.db.name_of_author(&book.author_id),
                        publication_date: clone_text(&book.publication_date),
                    },
                )
            },
            None => IndexChange::DropBook(id.to_hex()),
        }
    }

    /// What the index is to be told of the review `id`.
    pub fn change_of_review(&self, id: &ObjectId) -> (out: IndexChange)
        requires
            self.store().wf(),
        ensures
            out@ == review_change(self.store(), *id),
    {
        let reviews = self.db.reviews();
        match find_review(reviews, id) {
            Some(at) => {
                let review = &reviews[at];
                proof {
                    let all = self.store().reviews;
                    assert(all[at as int] == reviews@[at as int]@);
                    crate::changes::lemma_found_review(all, at as int, *id);
                }
                IndexChange::PutReview(
                    ReviewSearchDoc {
                        review_id: review.id.to_hex(),
                        book_id: review.book_id.to_hex(),
                        text: review.text.clone(),
                        score: review.score,
                    },
                )
            },
            None => IndexChange::DropReview(id.to_hex()),
        }
    }

    /// What the index is to be told of the books of `author`: of each book
    /// as the store holds it, in the order of the store.
    pub fn changes_of_books_by(&self, author: &ObjectId) -> (out: Vec<IndexChange>)
        requires
            self.store().wf(),
        ensures
            views(out@) == book_changes(self.store(), books_of(self.store().books, *author)),
    {
        let ids = self.db.books_by(author);
        let ghost st = self.store();
        let mut out: Vec<IndexChange> = Vec::new();
        let mut i: usize = 0;
        proof {
            assert(views(out@) =~= book_changes(st, ids@.take(0)));
        }
        while i < ids.len()
            invariant
                i <= ids.len(),
                st == self.store(),
                st.wf(),
                views(out@) == book_changes(st, ids@.take(i as int)),
            decreases ids.len() - i,
        {
            let change = self.change_of_book(&ids[i]);
            proof {
                lemma_views_push(out@, change);
                assert(ids@.take(i as int + 1) =~= ids@.take(i as int).push(ids@[i as int]));
                assert(book_changes(st, ids@.take(i as int).push(ids@[i as int]))
                    =~= book_changes(st, ids@.take(i as int)).push(change@));
            }
            out.push(change);
            i += 1;
        }
        proof {
            assert(ids@.take(ids.len() as int) =~= ids@);
        }
        out
    }

    /// Tells the index of a change: the index is then what it becomes
    /// when it is told of that change. The store and the cache stay as
    /// they are.
    pub fn tell_index(&mut self, change: &IndexChange)
        ensures
            final(self).index().took(&old(self).index(), change@),
            final(self).store() == old(self).store(),
            final(self).cache_held() == old(self).cache_held(),
            final(self).cached() == old(self).cached(),
            final(self).cache_is_exact() == old(self).cache_is_exact(),
    {
        match change {
            IndexChange::PutBook(doc) => {
                self.search.upsert_book(doc);
            },
            IndexChange::DropBook(id) => {
                self.search.delete_book(id.as_str());
            },
            IndexChange::PutReview(doc) => {
                self.search.upsert_review(doc);
            },
            IndexChange::DropReview(id) => {
                self.search.delete_review(id.as_str());
            },
        }
    }

    /// Tells the index of the book `id` as the store holds it, or that the
    /// book went where the store holds none. The store and the cache stay
    /// as they are.
    pub fn index_book(&mut self, id: &ObjectId)
        requires
            old(self).store().wf(),
        ensures
            final(self).index().took(&old(self).index(), book_change(old(self).store(), *id)),
            final(self).store() == old(self).store(),
            final(self).cache_held() == old(self).cache_held(),
            final(self).cached() == old(self).cached(),
            final(self).cache_is_exact() == old(self).cache_is_exact(),
    {
        let change = self.change_of_book(id);
        self.tell_index(&change);
    }

    /// Tells the index of each book of `author` as the store holds it, in
    /// the order of the store. The store and the cache stay as they are.
    pub fn index_books_of(&mut self, author: &ObjectId)
        requires
            old(self).store().wf(),
        ensures
            took_all(
                final(self).index(),
                old(self).index(),
                book_changes(old(self).store(), books_of(old(self).store().books, *author)),
            ),
            final(self).store() == old(self).store(),
            final(self).cache_held() == old(self).cache_held(),
            final(self).cached() == old(self).cached(),
            final(self).cache_is_exact() == old(self).cache_is_exact(),
    {
        let changes = self.changes_of_books_by(author);
        let ghost all = views(changes@);
        let mut i: usize = 0;
        proof {
            assert(all.take(0) =~= Seq::<IndexChangeView>::empty());
        }
        while i < changes.len()
            invariant
                i <= changes.len(),
                all == views(changes@),
                took_all(self.index(), old(self).index(), all.take(i as int)),
                self.store() == old(self).store(),
                self.cache_held() == old(self).cache_held(),
            decreases changes.len() - i,
        {
            let ghost mid = self.index();
            self.tell_index(&changes[i]);
            proof {
                lemma_took_one_more(
                    self.index(),
                    mid,
                    old(self).index(),
                    all.take(i as int),
                    changes@[i as int]@,
                );
                assert(all.take(i as int + 1) =~= all.take(i as int).push(changes@[i as int]@));
            }
            i += 1;
        }
        proof {
            assert(all.take(changes.len() as int) =~= all);
        }
    }

    /// Tells the index of the review `id` as the store holds it, or that
    /// the review went where the store holds none. The store and the cache
    /// stay as they are.
    pub fn index_review(&mut self, id: &ObjectId)
        requires
            old(self).store().wf(),
        ensures
            final(self).index().took(&old(self).index(), review_change(old(self).store(), *id)),
            final(self).store() == old(self).store(),
            final(self).cache_held() == old(self).cache_held(),
            final(self).cached() == old(self).cached(),
            final(self).cache_is_exact() == old(self).cache_is_exact(),
    {
        let change = self.change_of_review(id);
        self.tell_index(&change);
    }
}

} // verus!
