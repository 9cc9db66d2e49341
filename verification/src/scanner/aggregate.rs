//! Directory-level aggregation counters.
//!
//! A [`DirAgg`] is the recursive total for one directory: everything below
//! it, summed. Only these aggregates are persisted, never per-file records,
//! so a snapshot of a million files stays proportional to the *directory*
//! count. Every counter saturates at `u64::MAX` instead of wrapping.
use vstd::prelude::*;

verus! {

/// Recursive totals for one directory.
#[derive(Debug, Clone, Copy, PartialEq, Eq, Structural)]
pub struct DirAgg {
    /// Sum of apparent sizes (bytes) of every accounted file below this dir.
    pub total_size: u64,
    /// Number of accounted files below this dir (regular + special files).
    pub file_count: u64,
    /// Number of directories below this dir (recursive; excludes the dir
    /// itself, includes policy-excluded child dirs that were counted but not
    /// descended).
    pub dir_count: u64,
    /// Entries that could not be accounted for (permission denied / vanished
    /// / I/O errors): reported as warnings, never as failures.
    pub skipped: u64,
}

/// `a + b`, saturating at `u64::MAX`.
pub open spec fn sat_add(a: int, b: int) -> int {
    if a + b > u64::MAX { u64::MAX as int } else { a + b }
}

/// `a` with `child` folded in (the child directory itself counts as one).
pub open spec fn merged(a: DirAgg, child: DirAgg) -> DirAgg {
    DirAgg {
        total_size: sat_add(a.total_size as int, child.total_size as int) as u64,
        file_count: sat_add(a.file_count as int, child.file_count as int) as u64,
        dir_count: sat_add(a.dir_count as int, sat_add(child.dir_count as int, 1)) as u64,
        skipped: sat_add(a.skipped as int, child.skipped as int) as u64,
    }
}

/// `a` with one more file of `size` bytes.
pub open spec fn with_file(a: DirAgg, size: u64) -> DirAgg {
    DirAgg {
        total_size: sat_add(a.total_size as int, size as int) as u64,
        file_count: sat_add(a.file_count as int, 1) as u64,
        ..a
    }
}

/// `a` with one more directory that is counted but not descended into.
pub open spec fn with_dir_only(a: DirAgg) -> DirAgg {
    DirAgg { dir_count: sat_add(a.dir_count as int, 1) as u64, ..a }
}

/// `a` with one more entry that could not be accounted for.
pub open spec fn with_skipped(a: DirAgg) -> DirAgg {
    DirAgg { skipped: sat_add(a.skipped as int, 1) as u64, ..a }
}

impl Default for DirAgg {
    /// All counters zero.
    fn default() -> (r: DirAgg)
        ensures
            r == (DirAgg { total_size: 0, file_count: 0, dir_count: 0, skipped: 0 }),
    {
        DirAgg { total_size: 0, file_count: 0, dir_count: 0, skipped: 0 }
    }
}

impl DirAgg {
    /// All counters zero.
    pub fn empty() -> (r: DirAgg)
        ensures
            r == (DirAgg { total_size: 0, file_count: 0, dir_count: 0, skipped: 0 }),
    {
        DirAgg { total_size: 0, file_count: 0, dir_count: 0, skipped: 0 }
    }

    /// Fold a finished child directory into this (parent) aggregate. The `+1`
    /// accounts for the child directory itself.
    pub fn merge_child(&mut self, child: &DirAgg)
        ensures
            *final(self) == merged(*old(self), *child),
    {
        self.total_size = self.total_size.saturating_add(child.total_size);
        self.file_count = self.file_count.saturating_add(child.file_count);
        self.dir_count = self.dir_count.saturating_add(child.dir_count.saturating_add(1));
        self.skipped = self.skipped.saturating_add(child.skipped);
    }

    /// Count one file with its apparent size.
    pub fn add_file(&mut self, size: u64)
        ensures
            *final(self) == with_file(*old(self), size),
    {
        self.file_count = self.file_count.saturating_add(1);
        self.total_size = self.total_size.saturating_add(size);
    }

    /// Count one directory that exists below us but is not descended into
    /// (policy exclusion: own data dir / cross-filesystem / depth cap).
    pub fn add_dir_only(&mut self)
        ensures
            *final(self) == with_dir_only(*old(self)),
    {
        self.dir_count = self.dir_count.saturating_add(1);
    }

    /// Count one entry that could not be accounted for.
    pub fn add_skipped(&mut self)
        ensures
            *final(self) == with_skipped(*old(self)),
    {
        self.skipped = self.skipped.saturating_add(1);
    }
}

/// Folding finished children into a parent does not depend on the order
/// in which they finish (nor does counting files between them): the
/// parent's totals are the same either way.
pub proof fn law_fold_order_is_irrelevant(a: DirAgg, c1: DirAgg, c2: DirAgg, size: u64)
    ensures
        merged(merged(a, c1), c2) == merged(merged(a, c2), c1),
        merged(with_file(a, size), c1) == with_file(merged(a, c1), size),
{
}

} // verus!
