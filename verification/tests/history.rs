//! History tests: the timeline of the root or of one directory across
//! snapshots, ascending, with zeros where the directory did not exist.

use std::collections::{BTreeMap, BTreeSet};

use diskdrift::error::WhyBigError;
use diskdrift::history::{self, HistoryReport};
use diskdrift::pathutil;
use diskdrift::storage::models::{EntryRecord, SnapshotRecord};
use diskdrift::storage::query::{ascending_series, keep_direct_children};

// In-memory stand-in for a scanned directory tree and the snapshot
// database: `write` / `remove` change the tree, `snap` records every
// directory's recursive aggregate exactly as a scan would, and the queries
// below answer what the database answers.
struct Harness {
    root: String,
    files: BTreeMap<String, u64>,
    dirs: BTreeSet<String>,
    snaps: Vec<SnapshotRecord>,
    rows: Vec<Vec<EntryRecord>>,
    clock: i64,
}

fn new_harness() -> Harness {
    new_harness_at("/tmp/harness/tree")
}

fn new_harness_at(root: &str) -> Harness {
    let mut dirs = BTreeSet::new();
    dirs.insert(root.to_string());
    Harness {
        root: root.to_string(),
        files: BTreeMap::new(),
        dirs,
        snaps: Vec::new(),
        rows: Vec::new(),
        clock: 1_700_000_000_000,
    }
}

fn strictly_under(p: &str, dir: &str) -> bool {
    pathutil::is_under(p, dir) && !pathutil::paths_equal(p, dir)
}

impl Harness {
    fn abs(&self, rel: &str) -> String {
        pathutil::join(&self.root, rel)
    }

    fn mkdirs(&mut self, abs_dir: &str) {
        let mut cur = String::new();
        for (i, part) in abs_dir.split('/').enumerate() {
            if i == 0 {
                cur.push_str(part);
                continue;
            }
            cur.push('/');
            cur.push_str(part);
            if cur.starts_with("/tmp/harness/") {
                self.dirs.insert(cur.clone());
            }
        }
    }

    fn mkdir(&mut self, rel: &str) {
        let p = self.abs(rel);
        self.mkdirs(&p);
    }

    fn write(&mut self, rel: &str, content: &[u8]) {
        let p = self.abs(rel);
        let parent = p[..p.rfind('/').unwrap()].to_string();
        self.mkdirs(&parent);
        self.files.insert(p, content.len() as u64);
    }

    fn set_len(&mut self, rel: &str, size: u64) {
        let p = self.abs(rel);
        let parent = p[..p.rfind('/').unwrap()].to_string();
        self.mkdirs(&parent);
        self.files.insert(p, size);
    }

    fn remove_file(&mut self, rel: &str) {
        let p = self.abs(rel);
        self.files.remove(&p);
    }

    fn remove(&mut self, rel: &str) {
        let p = self.abs(rel);
        self.dirs.retain(|d| !pathutil::is_under(d, &p));
        self.files.retain(|f, _| !pathutil::is_under(f, &p));
    }

    fn snap(&mut self) -> i64 {
        let root = self.root.clone();
        self.snap_root(&root)
    }

    fn snap_at(&mut self, created_ms: i64) -> i64 {
        let root = self.root.clone();
        self.clock = created_ms;
        self.snap_root(&root)
    }

    fn snap_root(&mut self, root: &str) -> i64 {
        let mut rows = Vec::new();
        let mut total = (0u64, 0u64, 0u64);
        for d in self.dirs.iter().filter(|d| pathutil::is_under(d, root)) {
            let size: u64 = self.files.iter().filter(|(f, _)| strictly_under(f, d)).map(|(_, s)| *s).sum();
            let count = self.files.keys().filter(|f| strictly_under(f, d)).count() as u64;
            let sub = self.dirs.iter().filter(|x| strictly_under(x, d)).count() as u64;
            if d.as_str() == root {
                total = (size, count, sub);
            }
            rows.push(EntryRecord { path: d.clone(), size, file_count: count, dir_count: sub });
        }
        let id = self.snaps.len() as i64 + 1;
        self.snaps.push(SnapshotRecord {
            id,
            created_at_ms: self.clock,
            root_path: root.to_string(),
            total_size: total.0 as i64,
            file_count: total.1 as i64,
            dir_count: total.2 as i64,
            scan_duration_ms: 1,
            skipped_count: 0,
            size_kind: "apparent".to_string(),
        });
        self.rows.push(rows);
        self.clock += 60_000;
        id
    }

    /// `get_direct_children`: stored rows of one snapshot one level below `scope`.
    fn children(&self, id: i64, scope: &str) -> Vec<EntryRecord> {
        let rows: Vec<EntryRecord> = self.rows[(id - 1) as usize].clone();
        keep_direct_children(scope, rows)
    }

    /// `get_entry`: one stored row by exact path.
    fn entry(&self, id: i64, path: &str) -> Option<EntryRecord> {
        self.rows[(id - 1) as usize].iter().find(|e| e.path == path).cloned()
    }
}

impl Harness {
    /// `get_history_series`: newest-first with `LIMIT`, missing rows as 0.
    fn series(&self, root: &str, path: &str, limit: usize) -> Vec<(i64, i64, u64)> {
        let mut newest_first = Vec::new();
        for s in self.snaps.iter().rev().filter(|s| s.root_path == root).take(limit) {
            let size = self.entry(s.id, path).map(|e| e.size).unwrap_or(0);
            newest_first.push((s.id, s.created_at_ms, size));
        }
        ascending_series(newest_first)
    }

    fn history_for(&self, raw: Option<&str>, limit: usize) -> Result<HistoryReport, WhyBigError> {
        let latest = self.snaps.last().cloned();
        let root = history::latest_root(&latest)?;
        let target = history::history_target(&root, raw, Some("/tmp/harness"))?;
        let series = self.series(&root, &target, limit);
        Ok(history::history(&root, &target, &series))
    }

    fn dir_hist(&self, rel: &str, limit: usize) -> Result<HistoryReport, WhyBigError> {
        let abs = self.abs(rel);
        self.history_for(Some(&abs), limit)
    }
}

#[test]
fn root_history_is_ascending_with_deltas() {
    let mut h = new_harness();
    h.snap();
    h.write("x/f", &[1u8; 100]);
    h.snap();
    h.write("x/g", &[1u8; 200]);
    h.write("y/f", &[1u8; 50]);
    h.snap();

    let r = h.history_for(None, 20).unwrap();
    assert_eq!(r.points.len(), 3);
    let ids: Vec<i64> = r.points.iter().map(|p| p.snapshot_id).collect();
    assert_eq!(ids, vec![1, 2, 3]);
    assert!(r.points.windows(2).all(|w| w[0].created_at_ms <= w[1].created_at_ms));
    let sizes: Vec<u64> = r.points.iter().map(|p| p.size).collect();
    assert_eq!(sizes, vec![0, 100, 350]);
    assert_eq!(r.points[0].delta_from_previous, None);
    assert_eq!(r.points[1].delta_from_previous, Some(100));
    assert_eq!(r.points[2].delta_from_previous, Some(250));
    assert_eq!(r.total_delta, 350);
}

#[test]
fn directory_history_tracks_a_subdir() {
    let mut h = new_harness();
    h.write("a/f", &[1u8; 10]);
    h.write("b/f", &[1u8; 20]);
    h.snap();
    h.write("a/g", &[1u8; 90]);
    h.snap();
    h.write("a/h", &[1u8; 12]);
    h.snap();

    let r = h.dir_hist("a", 20).unwrap();
    let sizes: Vec<u64> = r.points.iter().map(|p| p.size).collect();
    assert_eq!(sizes, vec![10, 100, 112]);
    assert_eq!(r.total_delta, 102);
    assert_eq!(r.target, h.abs("a"));
}

#[test]
fn directory_added_halfway_reads_zero_before() {
    let mut h = new_harness();
    h.write("a/f", &[1u8; 10]);
    h.snap();
    h.write("b/f", &[1u8; 5]);
    h.snap();
    h.write("c/f", &[1u8; 300]);
    h.snap();

    let r = h.dir_hist("c", 20).unwrap();
    let sizes: Vec<u64> = r.points.iter().map(|p| p.size).collect();
    assert_eq!(sizes, vec![0, 0, 300], "no drop of the timeline, zeros before add");
}

#[test]
fn directory_removed_halfway_reads_zero_after() {
    let mut h = new_harness();
    h.write("gone/f", &[1u8; 77]);
    h.snap();
    h.write("other/f", &[1u8; 1]);
    h.snap();
    h.remove("gone");
    h.snap();

    let r = h.dir_hist("gone", 20).unwrap();
    let sizes: Vec<u64> = r.points.iter().map(|p| p.size).collect();
    assert_eq!(sizes, vec![77, 77, 0]);
    assert_eq!(r.total_delta, -77);
}

#[test]
fn directory_absent_then_returns() {
    let mut h = new_harness();
    h.write("blip/f", &[1u8; 50]);
    h.snap();
    h.remove("blip");
    h.snap();
    h.write("blip/f2", &[1u8; 30]);
    h.snap();

    let r = h.dir_hist("blip", 20).unwrap();
    let sizes: Vec<u64> = r.points.iter().map(|p| p.size).collect();
    assert_eq!(sizes, vec![50, 0, 30]);
}

#[test]
fn history_multiple_roots_are_isolated() {
    let mut h = new_harness_at("/tmp/harness/r1");
    h.mkdirs("/tmp/harness/r2");
    h.snap_root("/tmp/harness/r1");
    h.snap_root("/tmp/harness/r1");
    h.files.insert("/tmp/harness/r2/big".to_string(), 500);
    h.snap_root("/tmp/harness/r2");
    h.files.insert("/tmp/harness/r2/more".to_string(), 300);
    h.snap_root("/tmp/harness/r2");

    let r = h.history_for(None, 20).unwrap();
    assert_eq!(r.points.len(), 2);
    let sizes: Vec<u64> = r.points.iter().map(|p| p.size).collect();
    assert_eq!(sizes, vec![500, 800]);
}

#[test]
fn latest_root_selection_matches_diff() {
    let mut h = new_harness();
    h.snap();
    h.snap();
    let r = h.history_for(None, 20).unwrap();
    assert_eq!(r.root, h.root);
}

#[test]
fn limit_takes_the_latest_n_ascending() {
    let mut h = new_harness();
    for _ in 0..5 {
        h.snap();
    }
    let r = h.history_for(None, 3).unwrap();
    assert_eq!(r.points.len(), 3);
    let ids: Vec<i64> = r.points.iter().map(|p| p.snapshot_id).collect();
    assert_eq!(ids, vec![3, 4, 5]);
}

#[test]
fn outside_root_is_rejected() {
    let mut h = new_harness();
    h.snap();
    h.snap();
    let err = h.history_for(Some("/tmp/harness/outside"), 20).unwrap_err();
    assert!(err.message().contains("outside tracked root"));
}

#[test]
fn single_snapshot_is_a_valid_one_point_history() {
    let mut h = new_harness();
    h.snap();
    let r = h.history_for(None, 20).unwrap();
    assert_eq!(r.points.len(), 1);
    assert_eq!(r.total_delta, 0);
    assert_eq!(r.points[0].delta_from_previous, None);
}

#[test]
fn zero_snapshots_is_a_friendly_error() {
    let h = new_harness();
    let err = h.history_for(None, 20).unwrap_err();
    assert!(err.message().contains("no snapshots"));
}

#[test]
fn huge_values_are_handled() {
    let mut h = new_harness();
    h.set_len("data/big.bin", 256 * 1024 * 1024);
    h.snap();
    h.set_len("data/big2.bin", 512 * 1024 * 1024);
    h.snap();

    let r = h.dir_hist("data", 20).unwrap();
    assert_eq!(r.points[0].size, 256 * 1024 * 1024);
    assert_eq!(r.points[1].size, 768 * 1024 * 1024, "big.bin (256M) + big2.bin (512M)");
    assert_eq!(r.total_delta, 512 * 1024 * 1024);
}

#[test]
fn unicode_directory_history() {
    let mut h = new_harness();
    h.write("数据/子/f", &[1u8; 40]);
    h.snap();
    h.write("数据/子/g", &[1u8; 60]);
    h.snap();

    let r = h.dir_hist("数据/子", 20).unwrap();
    let sizes: Vec<u64> = r.points.iter().map(|p| p.size).collect();
    assert_eq!(sizes, vec![40, 100]);
}

#[test]
fn relative_target_joins_the_working_directory() {
    let mut h = new_harness();
    h.write("a/f", &[1u8; 10]);
    h.snap();
    let r = h.history_for(Some("tree/./a"), 20).unwrap();
    assert_eq!(r.target, "/tmp/harness/tree/a");
    assert_eq!(r.points[0].size, 10);
}

#[test]
fn step_deltas_add_up_to_the_total_change() {
    let series = vec![(1, 10, 5u64), (2, 20, 40), (3, 30, 12), (4, 40, 90)];
    let r = history::history("/r", "/r", &series);
    let steps: i128 = r.points.iter().filter_map(|p| p.delta_from_previous).sum();
    assert_eq!(steps, r.total_delta);
    assert_eq!(r.total_delta, 85);
}

#[test]
fn rendered_history_lines_up_columns() {
    let series = vec![(1, 10, 100u64), (2, 20, 2048)];
    let r = history::history("/r", "/r/a", &series);
    let text = diskdrift::output::history::render_labeled(&r, &vec!["Sep 01".to_string(), "Sep 02".to_string()]);
    assert_eq!(
        text,
        "/r/a\n\nSep 01       100 B            \nSep 02      2.0 KB     +1.9 KB\n\nTotal change\n+1.9 KB\n"
    );
}

#[test]
fn series_lookup_uses_the_stored_spelling_when_found() {
    let found = Some(EntryRecord { path: "/r/Data".to_string(), size: 1, file_count: 0, dir_count: 0 });
    assert_eq!(history::stored_spelling("/r/data", &found), "/r/Data");
    assert_eq!(history::stored_spelling("/r/data", &None), "/r/data");
}
