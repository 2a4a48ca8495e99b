//! Retrieve, cache, filter, sort and select mirror status records.
pub mod types;
pub mod pattern;
pub mod filters;
pub mod sort;
pub mod cache;
pub mod laws;
