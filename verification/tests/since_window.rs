//! `--since` selection tests (UTC, deterministic, honest fallback).

use chrono::{TimeZone, Utc};
use diskdrift::diff::{self, DiffSelection, SelectedPair, SinceInfo};
use diskdrift::since::DurationSecs;
use diskdrift::storage::models::{EntryRecord, SnapshotRecord};
use diskdrift::top::{self, TopMode};

const ROOT: &str = "R";

struct Store {
    snaps: Vec<SnapshotRecord>,
}

impl Store {
    fn new() -> Self {
        Store { snaps: Vec::new() }
    }

    fn save_root(&mut self, root: &str, created_ms: i64, total: i64) -> i64 {
        let id = self.snaps.len() as i64 + 1;
        self.snaps.push(SnapshotRecord {
            id,
            created_at_ms: created_ms,
            root_path: root.to_string(),
            total_size: total,
            file_count: 1,
            dir_count: 0,
            scan_duration_ms: 1,
            skipped_count: 0,
            size_kind: "apparent".to_string(),
        });
        id
    }

    fn save(&mut self, created_ms: i64) -> i64 {
        self.save_root(ROOT, created_ms, 100)
    }

    fn latest(&self) -> SnapshotRecord {
        self.snaps.last().unwrap().clone()
    }
}

fn t0() -> i64 {
    Utc.with_ymd_and_hms(2025, 9, 1, 12, 0, 0).unwrap().timestamp_millis()
}

/// Fixed timeline: id1 at T0, id2 at T0+2h, id3 at T0+4h (latest).
fn seeded() -> Store {
    let mut st = Store::new();
    st.save(t0());
    st.save(t0() + 2 * 3_600_000);
    st.save(t0() + 4 * 3_600_000);
    st
}

fn since(secs: i64) -> DiffSelection {
    DiffSelection::Since { duration: DurationSecs(secs) }
}

fn since_of(pair: &SelectedPair) -> SinceInfo {
    pair.since.expect("since info present")
}

#[test]
fn picks_snapshot_at_or_before_target() {
    let st = seeded();
    let pair = diff::select_pair(&st.snaps, since(90 * 60)).unwrap();
    assert_eq!(pair.after.id, 3);
    assert_eq!(pair.before.id, 2);
    let info = since_of(&pair);
    assert!(!info.used_earliest);
    let target = st.latest().created_at_ms - 90 * 60_000;
    assert!(info.effective_before_ms <= target);
}

#[test]
fn exact_target_timestamp_is_selected() {
    let st = seeded();
    let pair = diff::select_pair(&st.snaps, since(4 * 3600)).unwrap();
    assert_eq!(pair.before.id, 1);
    assert!(!since_of(&pair).used_earliest);
}

#[test]
fn no_snapshot_before_range_uses_earliest_and_flags() {
    let st = seeded();
    let pair = diff::select_pair(&st.snaps, since(8 * 3600)).unwrap();
    assert_eq!(pair.before.id, 1);
    let info = since_of(&pair);
    assert!(info.used_earliest);
    assert_eq!(info.effective_before_ms, pair.before.created_at_ms);
}

#[test]
fn multiple_snapshots_around_target() {
    let st = seeded();
    let pair = diff::select_pair(&st.snaps, since(3 * 3600)).unwrap();
    assert_eq!(pair.before.id, 1);
}

#[test]
fn timestamp_tie_breaks_deterministically_to_oldest() {
    let mut st = Store::new();
    st.save(t0());
    st.save(t0());
    st.save(t0());
    let pair = diff::select_pair(&st.snaps, since(24 * 3600)).unwrap();
    assert_eq!(pair.after.id, 3);
    assert_eq!(pair.before.id, 1, "tie breaks to the smallest id");
}

#[test]
fn multiple_roots_do_not_cross() {
    let mut st = Store::new();
    st.save_root("R2", t0(), 1);
    st.save_root("R2", t0() + 3_600_000, 9);
    let pair = diff::select_pair(&st.snaps, since(30 * 60)).unwrap();
    assert_eq!(pair.before.root_path, "R2");
    assert_eq!(pair.after.root_path, "R2");
    assert!(pair.before.created_at_ms <= t0() + 3_600_000 - 30 * 60_000);
}

#[test]
fn scoped_top_supports_since() {
    let st = seeded();
    let pair = diff::select_pair(&st.snaps, since(90 * 60)).unwrap();
    let scope = top::top_scope(&pair, None, None).unwrap();
    let rows = vec![EntryRecord { path: "R/a".to_string(), size: 100, file_count: 1, dir_count: 0 }];
    let report = top::top(&pair, &scope, TopMode::Growth, &rows, &rows);
    assert!(report.since.is_some());
    assert_eq!(report.before.id, 2);
    assert_eq!(report.after.id, 3);
}

#[test]
fn since_returns_clear_error_when_equal_to_latest_only() {
    let mut st = Store::new();
    st.save(1_700_000_000_000);
    let err = diff::select_pair(&st.snaps, since(30 * 60)).unwrap_err();
    assert!(err.message().contains("earlier"));
}

#[test]
fn requested_window_and_target_are_reported() {
    let st = seeded();
    let pair = diff::select_pair(&st.snaps, since(90 * 60)).unwrap();
    let info = since_of(&pair);
    assert_eq!(info.requested_seconds, 5400);
    assert_eq!(info.requested_target_ms, t0() + 4 * 3_600_000 - 5_400_000);
    assert_eq!(info.effective_before_ms, t0() + 2 * 3_600_000);
    assert_eq!(info.requested_human(), "90 minutes ago");
}

#[test]
fn fallback_notice_is_rendered_before_totals() {
    let st = seeded();
    let pair = diff::select_pair(&st.snaps, since(8 * 3600)).unwrap();
    let d = diff::compute_pair(&pair, "R", &Vec::new(), &Vec::new());
    let text = diskdrift::output::diff::render_labeled(&d, None, &"B".to_string(), &"A".to_string(), &"Sep 01".to_string());
    assert!(text.contains("Requested: 8 hours ago\nAvailable history starts: Sep 01\nUsing earliest available snapshot.\n\nTotal\n"));
}
