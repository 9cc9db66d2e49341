//! DiskDrift — a disk-space *growth* tracker.
//!
//! Disk analyzers tell you what's big; this library tells you what **got**
//! big. It holds the verified core: path algebra, snapshot selection, diff
//! attribution, retention planning, directory aggregation and every renderer.
pub mod benchtree;
pub mod cli;
pub mod config;
pub mod diff;
pub mod error;
pub mod history;
pub mod inspect;
pub mod json;
pub mod order;
pub mod output;
pub mod pathutil;
pub mod retention;
pub mod scanner;
pub mod since;
pub mod snapshot;
pub mod storage;
pub mod text;
pub mod top;
