//! Snapshot orchestration decisions and the storage conversions.


use diskdrift::scanner::{DirAgg, DirEntry, Elapsed, ScanResult, ScanSummary};
use diskdrift::snapshot::service::{check_root_not_in_data_dir, new_snapshot, outcome, scan_options, uninitialized_status};
use diskdrift::storage::models::{i64_to_u64, u64_to_i64};
use diskdrift::storage::query::{migration_failure, pending_migrations};
use diskdrift::error::WhyBigError;

#[test]
fn u64_i64_conversion_is_total_and_saturating() {
    assert_eq!(u64_to_i64(0), 0);
    assert_eq!(u64_to_i64(i64::MAX as u64), i64::MAX);
    assert_eq!(u64_to_i64(u64::MAX), i64::MAX);
    assert_eq!(i64_to_u64(0), 0);
    assert_eq!(i64_to_u64(-5), 0, "negative clamps to 0");
    assert_eq!(i64_to_u64(i64::MAX), i64::MAX as u64);
}

#[test]
fn status_reports_not_initialized_without_creating_database() {
    let report = uninitialized_status("/d/data", "/d/data/diskdrift.db");
    assert!(!report.initialized);
    assert_eq!(report.snapshot_count, 0);
    assert_eq!(report.db_size, 0);
    assert!(report.earliest.is_none() && report.latest.is_none());
}

#[test]
fn root_inside_the_data_dir_is_refused() {
    let err = check_root_not_in_data_dir("/d/data/sub", "/d/data").unwrap_err();
    assert!(err.message().contains("lies inside the DiskDrift data directory"));
    assert!(check_root_not_in_data_dir("/d/tree", "/d/data").is_ok());
}

#[test]
fn data_dir_inside_the_root_is_excluded_from_the_scan() {
    let o = scan_options("/d", "/d/.diskdrift-data");
    assert_eq!(o.exclude.as_deref(), Some("/d/.diskdrift-data"));
    assert!(scan_options("/d/tree", "/d/data").exclude.is_none());
}

fn result() -> ScanResult {
    let sub = DirEntry { path: "/d/t/sub".to_string(), agg: DirAgg { total_size: 50, file_count: 1, dir_count: 0, skipped: 0 } };
    let root = DirEntry { path: "/d/t".to_string(), agg: DirAgg { total_size: 350, file_count: 3, dir_count: 1, skipped: 0 } };
    ScanResult {
        root: "/d/t".to_string(),
        entries: vec![sub, root],
        summary: ScanSummary { total_size: 350, file_count: 3, dir_count: 1, skipped_count: 0, elapsed: Elapsed::from_millis(42) },
        warnings: vec![],
    }
}

#[test]
fn stored_rows_are_one_per_directory() {
    let n = new_snapshot(&result(), "/d/t", 1_700_000_000_000);
    assert_eq!(n.entries.len(), 2);
    assert_eq!(n.entries[1].path, "/d/t");
    assert_eq!(n.entries[1].size, 350);
    assert_eq!(n.total_size, 350);
    assert_eq!(n.scan_duration_ms, 42);
    let o = outcome(9, 1_700_000_000_000, "/d/t", result());
    assert_eq!(o.snapshot_id, 9);
    assert_eq!(o.file_count, 3);
    assert_eq!(o.elapsed, Elapsed::from_millis(42));
}

#[test]
fn fresh_database_reaches_latest_version() {
    assert_eq!(pending_migrations(0, 2).unwrap(), vec![1, 2]);
    assert_eq!(pending_migrations(1, 2).unwrap(), vec![2]);
    assert!(pending_migrations(2, 2).unwrap().is_empty());
    assert!(matches!(pending_migrations(999, 2), Err(WhyBigError::NewerSchema)));
    assert!(WhyBigError::NewerSchema.message().contains("newer version of DiskDrift"));
    assert_eq!(migration_failure(2, "boom").message(), "database migration failed: v2: boom");
}

#[test]
fn snapshot_summary_and_warnings_render_exactly() {
    let mut o = outcome(12, 1_700_000_000_000, "/d/t", result());
    o.file_count = 1_234;
    o.skipped_count = 0;
    let text = diskdrift::output::snapshot::render_outcome_labeled(&o, &"0.042s".to_string());
    assert_eq!(text, "1,234 files\n1 directories\n350 B\n\nSnapshot #12 saved in 0.042s\n");
    assert_eq!(diskdrift::output::snapshot::render_outcome(&o), text);
    assert_eq!(diskdrift::output::snapshot::render_warnings(&o), "");
    o.skipped_count = 3;
    assert_eq!(diskdrift::output::snapshot::render_warnings(&o), "\nWarnings:\n3 entries could not be read\n");
}
