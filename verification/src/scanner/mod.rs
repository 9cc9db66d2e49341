//! Filesystem scanning.
//!
//! This module produces **pure data**: it never touches the database. A scan
//! walks a tree and returns directory-level aggregates ([`ScanResult`]) plus
//! a summary and warnings. The walk's decisions live in [`walker::Walk`]; the
//! program drives it with what the filesystem reports.
use vstd::prelude::*;

pub mod aggregate;
pub mod elapsed;
pub mod entry;
pub mod walker;

pub use aggregate::DirAgg;
pub use elapsed::Elapsed;
pub use entry::DirEntry;

verus! {

/// Input to a scan. `root` should be an absolute, stable spelling of the
/// directory (the snapshot service normalizes it) so that snapshot keys line
/// up across runs.
#[derive(Debug, Clone)]
pub struct ScanOptions {
    /// The directory to scan.
    pub root: String,
    /// A subtree to ignore entirely (the data directory itself).
    pub exclude: Option<String>,
    /// Maximum directory depth to descend into; `None` means unlimited.
    pub max_depth: Option<usize>,
}

/// Top-level totals of a scan (they always equal the root entry's aggregate).
#[derive(Debug, Clone, Copy, PartialEq, Eq)]
pub struct ScanSummary {
    pub total_size: u64,
    pub file_count: u64,
    pub dir_count: u64,
    pub skipped_count: u64,
    pub elapsed: Elapsed,
}

/// The category of a non-fatal scan problem.
#[derive(Debug, Clone, Copy, PartialEq, Eq, Structural)]
pub enum WarningKind {
    /// Reading an entry's metadata failed: it vanished mid-scan.
    StatFailed,
    /// A directory could not be read (permission denied / vanished).
    UnreadableDir,
    /// The directory iterator itself reported an error.
    EntryReadFailed,
}

/// One non-fatal problem encountered during a scan.
#[derive(Debug, Clone)]
pub struct ScanWarning {
    pub path: String,
    pub error: String,
    pub kind: WarningKind,
}

/// Final output of a scan: every accounted directory + summary. There are
/// no per-file records here by design.
#[derive(Debug, Clone)]
pub struct ScanResult {
    pub root: String,
    pub entries: Vec<DirEntry>,
    pub summary: ScanSummary,
    pub warnings: Vec<ScanWarning>,
}

} // verus!
