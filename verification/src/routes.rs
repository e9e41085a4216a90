//! The writes of the catalog, one module for each collection: what a
//! request changes in the store and what it makes the cache forget.

pub mod authors;
pub mod books;
pub mod reviews;
pub mod sales;
