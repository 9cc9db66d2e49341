//! Storage-side record shapes.
//!
//! SQLite stores `INTEGER` as `i64`; filesystem sizes are `u64`. Conversion is
//! explicit and total (saturating at `i64` bounds — physically unreachable for
//! real filesystems, but never a crash or a silent wrap).
use vstd::prelude::*;

verus! {

/// `v` as SQLite stores it: saturated at `i64::MAX`.
pub open spec fn to_i64_sat(v: int) -> int {
    if v > i64::MAX { i64::MAX as int } else { v }
}

/// `v` read back as a size: negative values clamp to 0.
pub open spec fn to_u64_clamp(v: int) -> int {
    if v < 0 { 0 } else { v }
}

/// `u64` → SQLite `i64`, saturating at `i64::MAX` (8 EiB).
pub fn u64_to_i64(v: u64) -> (r: i64)
    ensures
        r == to_i64_sat(v as int),
{
    if v > i64::MAX as u64 { i64::MAX } else { v as i64 }
}

/// SQLite `i64` → `u64`, clamping negative values (never expected for sizes).
pub fn i64_to_u64(v: i64) -> (r: u64)
    ensures
        r == to_u64_clamp(v as int),
{
    if v < 0 { 0 } else { v as u64 }
}

/// A row from the `snapshots` table.
#[derive(Debug, Clone, PartialEq, Eq)]
pub struct SnapshotRecord {
    pub id: i64,
    /// Unix epoch milliseconds (UTC).
    pub created_at_ms: i64,
    /// The normalized (canonical) scan root, lossy UTF-8.
    pub root_path: String,
    /// Stored in i64; use the `*_u64` getters for the unsigned values.
    pub total_size: i64,
    pub file_count: i64,
    pub dir_count: i64,
    pub scan_duration_ms: i64,
    pub skipped_count: i64,
    /// "apparent" ("allocated" reserved).
    pub size_kind: String,
}

/// Column order shared by every snapshot SELECT.
pub fn snapshot_column_list() -> (s: &'static str)
    ensures
        s@ == "id, created_at, root_path, total_size, file_count, dir_count, scan_duration_ms, skipped_count, size_kind"@,
{
    "id, created_at, root_path, total_size, file_count, dir_count, scan_duration_ms, skipped_count, size_kind"
}

impl SnapshotRecord {
    /// A field-by-field copy.
    pub fn copied(&self) -> (r: SnapshotRecord)
        ensures
            r == *self,
    {
        SnapshotRecord {
            id: self.id,
            created_at_ms: self.created_at_ms,
            root_path: self.root_path.clone(),
            total_size: self.total_size,
            file_count: self.file_count,
            dir_count: self.dir_count,
            scan_duration_ms: self.scan_duration_ms,
            skipped_count: self.skipped_count,
            size_kind: self.size_kind.clone(),
        }
    }

    pub fn total_size_u64(&self) -> (r: u64)
        ensures
            r == to_u64_clamp(self.total_size as int),
    {
        i64_to_u64(self.total_size)
    }

    pub fn file_count_u64(&self) -> (r: u64)
        ensures
            r == to_u64_clamp(self.file_count as int),
    {
        i64_to_u64(self.file_count)
    }

    pub fn dir_count_u64(&self) -> (r: u64)
        ensures
            r == to_u64_clamp(self.dir_count as int),
    {
        i64_to_u64(self.dir_count)
    }

    pub fn scan_duration_ms_u64(&self) -> (r: u64)
        ensures
            r == to_u64_clamp(self.scan_duration_ms as int),
    {
        i64_to_u64(self.scan_duration_ms)
    }

    pub fn skipped_count_u64(&self) -> (r: u64)
        ensures
            r == to_u64_clamp(self.skipped_count as int),
    {
        i64_to_u64(self.skipped_count)
    }
}

/// One `entries` row: a directory and its recursive aggregate.
#[derive(Debug, Clone, PartialEq, Eq)]
pub struct EntryRecord {
    pub path: String,
    pub size: u64,
    pub file_count: u64,
    pub dir_count: u64,
}

impl EntryRecord {
    /// A field-by-field copy.
    pub fn copied(&self) -> (r: EntryRecord)
        ensures
            r == *self,
    {
        EntryRecord {
            path: self.path.clone(),
            size: self.size,
            file_count: self.file_count,
            dir_count: self.dir_count,
        }
    }
}

/// One `entries` row to insert.
#[derive(Debug, Clone, PartialEq, Eq)]
pub struct EntryToWrite {
    pub path: String,
    pub size: u64,
    pub file_count: u64,
    pub dir_count: u64,
}

/// Full payload for saving one snapshot.
#[derive(Debug, Clone)]
pub struct NewSnapshot {
    pub created_at_ms: i64,
    pub root_path: String,
    pub total_size: u64,
    pub file_count: u64,
    pub dir_count: u64,
    pub scan_duration_ms: u64,
    pub skipped_count: u64,
    pub entries: Vec<EntryToWrite>,
}

} // verus!
