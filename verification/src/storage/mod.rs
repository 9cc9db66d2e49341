//! Persistence shapes and the pure parts of the snapshot database: record
//! types, integer conversions, subtree query patterns, and what is done
//! with the rows queries return.
pub mod models;
pub mod pattern;
pub mod query;
