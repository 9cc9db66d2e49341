//! Snapshot orchestration decisions: which root may be scanned, what the
//! scan leaves out, what gets stored, and what the user is told. The
//! program performs the filesystem, clock and database work around them.
use vstd::prelude::*;
use crate::error::WhyBigError;
use crate::pathutil::{is_under, under};
use crate::scanner::{Elapsed, ScanOptions, ScanResult, ScanWarning};
use crate::scanner::elapsed::u64_modulus;
use crate::storage::models::{EntryToWrite, NewSnapshot, SnapshotRecord};

verus! {

/// Everything a renderer needs for a completed snapshot.
#[derive(Debug, Clone)]
pub struct SnapshotOutcome {
    pub snapshot_id: i64,
    /// Unix epoch ms (UTC) of the snapshot row.
    pub created_at_ms: i64,
    pub root_path: String,
    pub total_size: u64,
    pub file_count: u64,
    pub dir_count: u64,
    pub skipped_count: u64,
    pub elapsed: Elapsed,
    /// Non-fatal scan problems (permission / vanished / I/O), for `--json`.
    pub warnings: Vec<ScanWarning>,
}

/// What `status` reports.
#[derive(Debug, Clone)]
pub struct StatusReport {
    pub initialized: bool,
    pub data_dir: String,
    pub db_path: String,
    pub db_size: u64,
    pub snapshot_count: i64,
    pub earliest: Option<SnapshotRecord>,
    pub latest: Option<SnapshotRecord>,
}

/// Reject scanning a root that lives inside the data directory.
pub fn check_root_not_in_data_dir(root: &str, data_dir_abs: &str) -> (r: Result<(), WhyBigError>)
    ensures
        under(root@, data_dir_abs@) ==> (r is Err && (r->Err_0 matches WhyBigError::RootInsideDataDir(p) && p@ == root@)),
        !under(root@, data_dir_abs@) ==> r is Ok,
{
    if is_under(root, data_dir_abs) {
        return Err(WhyBigError::RootInsideDataDir(root.to_string()));
    }
    Ok(())
}

/// Scan options for `root`: when the data directory lies inside the root,
/// its subtree is excluded so a scan never records its own growing database.
pub fn scan_options(root: &str, data_dir_abs: &str) -> (o: ScanOptions)
    ensures
        o.root@ == root@,
        o.max_depth is None,
        under(data_dir_abs@, root@) ==> (o.exclude is Some && o.exclude->0@ == data_dir_abs@),
        !under(data_dir_abs@, root@) ==> o.exclude is None,
{
    let exclude = if is_under(data_dir_abs, root) { Some(data_dir_abs.to_string()) } else { None };
    ScanOptions { root: root.to_string(), exclude, max_depth: None }
}

/// The storage payload for a scan: one row per directory (path, recursive
/// size and counts), plus the summary.
pub fn new_snapshot(result: &ScanResult, root: &str, created_at_ms: i64) -> (n: NewSnapshot)
    ensures
        n.created_at_ms == created_at_ms,
        n.root_path@ == root@,
        n.total_size == result.summary.total_size,
        n.file_count == result.summary.file_count,
        n.dir_count == result.summary.dir_count,
        n.scan_duration_ms == (result.summary.elapsed@.0 * 1000 + result.summary.elapsed@.1 / 1_000_000) % u64_modulus(),
        n.skipped_count == result.summary.skipped_count,
        n.entries@.len() == result.entries@.len(),
        forall|i: int| 0 <= i < result.entries@.len() ==> ({
            let e = #[trigger] result.entries@[i];
            n.entries@[i] == (EntryToWrite { path: e.path, size: e.agg.total_size, file_count: e.agg.file_count, dir_count: e.agg.dir_count })
        }),
{
    let mut entries: Vec<EntryToWrite> = Vec::new();
    let mut i: usize = 0;
    while i < result.entries.len()
        invariant
            i <= result.entries.len(),
            entries@.len() == i,
            forall|k: int| 0 <= k < i ==> ({
                let e = #[trigger] result.entries@[k];
                entries@[k] == (EntryToWrite { path: e.path, size: e.agg.total_size, file_count: e.agg.file_count, dir_count: e.agg.dir_count })
            }),
        decreases result.entries.len() - i,
    {
        let e = &result.entries[i];
        entries.push(EntryToWrite {
            path: e.path.clone(),
            size: e.agg.total_size,
            file_count: e.agg.file_count,
            dir_count: e.agg.dir_count,
        });
        i = i + 1;
    }
    let scan_duration_ms = result.summary.elapsed.millis_u64();
    NewSnapshot {
        created_at_ms,
        root_path: root.to_string(),
        total_size: result.summary.total_size,
        file_count: result.summary.file_count,
        dir_count: result.summary.dir_count,
        scan_duration_ms,
        skipped_count: result.summary.skipped_count,
        entries,
    }
}

/// What the user is told about a stored snapshot.
pub fn outcome(snapshot_id: i64, created_at_ms: i64, root: &str, result: ScanResult) -> (o: SnapshotOutcome)
    ensures
        o.snapshot_id == snapshot_id,
        o.created_at_ms == created_at_ms,
        o.root_path@ == root@,
        o.total_size == result.summary.total_size,
        o.file_count == result.summary.file_count,
        o.dir_count == result.summary.dir_count,
        o.skipped_count == result.summary.skipped_count,
        o.elapsed == result.summary.elapsed,
        o.warnings == result.warnings,
{
    SnapshotOutcome {
        snapshot_id,
        created_at_ms,
        root_path: root.to_string(),
        total_size: result.summary.total_size,
        file_count: result.summary.file_count,
        dir_count: result.summary.dir_count,
        skipped_count: result.summary.skipped_count,
        elapsed: result.summary.elapsed,
        warnings: result.warnings,
    }
}

/// The status of a data directory that holds no database yet: not an
/// error, just not initialized.
pub fn uninitialized_status(data_dir: &str, db_path: &str) -> (r: StatusReport)
    ensures
        !r.initialized,
        r.data_dir@ == data_dir@,
        r.db_path@ == db_path@,
        r.db_size == 0,
        r.snapshot_count == 0,
        r.earliest is None,
        r.latest is None,
{
    StatusReport {
        initialized: false,
        data_dir: data_dir.to_string(),
        db_path: db_path.to_string(),
        db_size: 0,
        snapshot_count: 0,
        earliest: None,
        latest: None,
    }
}

} // verus!
