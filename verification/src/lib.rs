//! A catalog of authors, books, reviews and sales: the reports derived from
//! it, the cache that backs them, and the rules that keep both in step.
//!
//! The documents live in a [`store::Store`]: four collections that refer to
//! each other by identifier. Every state of a store meets its rules
//! (`StoreView::wf`), and every write says what it makes of the store
//! ([`changes`]). The reports ([`db`]) are computed from the store: the
//! summary of each author, the best rated and the best selling books, and
//! the search for books by the words of a query. What they measure is
//! summed in [`measures`], what they rank is ranked in [`ranking`] by the
//! orders of [`orders`].
//!
//! Reports may be served from a [`cache::Cache`] ([`cached`]). A cache holds
//! bytes: entries written field by field ([`entries`], [`fields`]). The
//! state of the application ([`db::AppState`]) is in step when every entry
//! that its cache can serve is true of its store; the writes of the catalog
//! ([`routes`]) make the cache forget what a write may have made untrue
//! ([`invalidate`]), and tell the search index ([`search`], [`indexing`]).
//!
//! The total that is written on a book follows the sales of the book
//! through every write ([`totals`]); what holds of the reports of every
//! store is proved in [`report_laws`].

pub mod cache;
pub mod cached;
pub mod changes;
pub mod config;
pub mod dates;
pub mod db;
pub mod entries;
pub mod fields;
pub mod indexing;
pub mod invalidate;
pub mod listing;
pub mod measures;
pub mod memory_cache;
pub mod models;
pub mod object_id;
pub mod orders;
pub mod ranking;
pub mod report_laws;
pub mod routes;
pub mod routing;
pub mod search;
pub mod search_query;
pub mod seqs;
pub mod static_files;
pub mod store;
pub mod text;
pub mod totals;
pub mod upload;
