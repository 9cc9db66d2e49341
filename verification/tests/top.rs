//! Top tests: rankings are the diff engine's groups at a scope.

use std::collections::{BTreeMap, BTreeSet};

use diskdrift::diff::{self, DiffSelection, DiffState};
use diskdrift::output::top as render_top;
use diskdrift::pathutil;
use diskdrift::storage::models::{EntryRecord, SnapshotRecord};
use diskdrift::storage::query::keep_direct_children;
use diskdrift::top::{self, TopMode, TopReport};
use chrono::TimeZone;

// In-memory stand-in for a scanned directory tree and the snapshot
// database: `write` / `remove` change the tree, `snap` records every
// directory's recursive aggregate exactly as a scan would, and the queries
// below answer what the database answers.
struct Harness {
    root: String,
    files: BTreeMap<String, u64>,
    dirs: BTreeSet<String>,
    snaps: Vec<SnapshotRecord>,
    rows: Vec<Vec<EntryRecord>>,
    clock: i64,
}

fn new_harness() -> Harness {
    new_harness_at("/tmp/harness/tree")
}

fn new_harness_at(root: &str) -> Harness {
    let mut dirs = BTreeSet::new();
    dirs.insert(root.to_string());
    Harness {
        root: root.to_string(),
        files: BTreeMap::new(),
        dirs,
        snaps: Vec::new(),
        rows: Vec::new(),
        clock: 1_700_000_000_000,
    }
}

fn strictly_under(p: &str, dir: &str) -> bool {
    pathutil::is_under(p, dir) && !pathutil::paths_equal(p, dir)
}

impl Harness {
    fn abs(&self, rel: &str) -> String {
        pathutil::join(&self.root, rel)
    }

    fn mkdirs(&mut self, abs_dir: &str) {
        let mut cur = String::new();
        for (i, part) in abs_dir.split('/').enumerate() {
            if i == 0 {
                cur.push_str(part);
                continue;
            }
            cur.push('/');
            cur.push_str(part);
            if cur.starts_with("/tmp/harness/") {
                self.dirs.insert(cur.clone());
            }
        }
    }

    fn mkdir(&mut self, rel: &str) {
        let p = self.abs(rel);
        self.mkdirs(&p);
    }

    fn write(&mut self, rel: &str, content: &[u8]) {
        let p = self.abs(rel);
        let parent = p[..p.rfind('/').unwrap()].to_string();
        self.mkdirs(&parent);
        self.files.insert(p, content.len() as u64);
    }

    fn set_len(&mut self, rel: &str, size: u64) {
        let p = self.abs(rel);
        let parent = p[..p.rfind('/').unwrap()].to_string();
        self.mkdirs(&parent);
        self.files.insert(p, size);
    }

    fn remove_file(&mut self, rel: &str) {
        let p = self.abs(rel);
        self.files.remove(&p);
    }

    fn remove(&mut self, rel: &str) {
        let p = self.abs(rel);
        self.dirs.retain(|d| !pathutil::is_under(d, &p));
        self.files.retain(|f, _| !pathutil::is_under(f, &p));
    }

    fn snap(&mut self) -> i64 {
        let root = self.root.clone();
        self.snap_root(&root)
    }

    fn snap_at(&mut self, created_ms: i64) -> i64 {
        let root = self.root.clone();
        self.clock = created_ms;
        self.snap_root(&root)
    }

    fn snap_root(&mut self, root: &str) -> i64 {
        let mut rows = Vec::new();
        let mut total = (0u64, 0u64, 0u64);
        for d in self.dirs.iter().filter(|d| pathutil::is_under(d, root)) {
            let size: u64 = self.files.iter().filter(|(f, _)| strictly_under(f, d)).map(|(_, s)| *s).sum();
            let count = self.files.keys().filter(|f| strictly_under(f, d)).count() as u64;
            let sub = self.dirs.iter().filter(|x| strictly_under(x, d)).count() as u64;
            if d.as_str() == root {
                total = (size, count, sub);
            }
            rows.push(EntryRecord { path: d.clone(), size, file_count: count, dir_count: sub });
        }
        let id = self.snaps.len() as i64 + 1;
        self.snaps.push(SnapshotRecord {
            id,
            created_at_ms: self.clock,
            root_path: root.to_string(),
            total_size: total.0 as i64,
            file_count: total.1 as i64,
            dir_count: total.2 as i64,
            scan_duration_ms: 1,
            skipped_count: 0,
            size_kind: "apparent".to_string(),
        });
        self.rows.push(rows);
        self.clock += 60_000;
        id
    }

    /// `get_direct_children`: stored rows of one snapshot one level below `scope`.
    fn children(&self, id: i64, scope: &str) -> Vec<EntryRecord> {
        let rows: Vec<EntryRecord> = self.rows[(id - 1) as usize].clone();
        keep_direct_children(scope, rows)
    }

    /// `get_entry`: one stored row by exact path.
    fn entry(&self, id: i64, path: &str) -> Option<EntryRecord> {
        self.rows[(id - 1) as usize].iter().find(|e| e.path == path).cloned()
    }
}

impl Harness {
    fn top_sel(&self, selection: DiffSelection, raw: Option<&str>, mode: TopMode) -> TopReport {
        let pair = diff::select_pair(&self.snaps, selection).unwrap();
        let scope = top::top_scope(&pair, raw, Some("/tmp/harness")).unwrap();
        let bc = self.children(pair.before.id, &scope);
        let ac = self.children(pair.after.id, &scope);
        top::top(&pair, &scope, mode, &bc, &ac)
    }

    fn top_of(&self, raw: Option<&str>, mode: TopMode) -> TopReport {
        self.top_sel(DiffSelection::Default, raw, mode)
    }

    fn matches_diff(&self, report: &TopReport, mode: TopMode) {
        let pair = diff::select_pair(&self.snaps, DiffSelection::Default).unwrap();
        let d = diff::compute(
            &pair.before,
            &pair.after,
            &report.scope,
            &self.children(pair.before.id, &report.scope),
            &self.children(pair.after.id, &report.scope),
        );
        let theirs = match mode {
            TopMode::Growth => &d.grew,
            TopMode::Shrink => &d.shrank,
        };
        assert_eq!(report.entries.len(), theirs.len());
        for (o, t) in report.entries.iter().zip(theirs) {
            assert_eq!(o.path, t.path);
            assert_eq!(o.delta, t.delta);
        }
    }
}

fn names(r: &TopReport) -> Vec<String> {
    r.entries.iter().map(|e| e.path.rsplit('/').next().unwrap().to_string()).collect()
}

#[test]
fn largest_growth_comes_first_and_matches_diff() {
    let mut h = new_harness();
    h.write("small/f", &[1u8; 10]);
    h.write("middle/f", &[1u8; 10]);
    h.write("big/f", &[1u8; 10]);
    h.snap();
    h.write("big/g", &[1u8; 300]);
    h.write("middle/g", &[1u8; 200]);
    h.write("small/g", &[1u8; 100]);
    h.snap();

    let r = h.top_of(None, TopMode::Growth);
    assert_eq!(names(&r), vec!["big".to_string(), "middle".to_string(), "small".to_string()]);
    h.matches_diff(&r, TopMode::Growth);
}

#[test]
fn shrink_ranking_sorts_by_absolute_delta() {
    let mut h = new_harness();
    h.write("small/f", &[1u8; 100]);
    h.write("big/f", &[1u8; 1000]);
    h.write("med/f", &[1u8; 400]);
    h.snap();
    h.remove("big");
    h.remove("med");
    h.remove("small");
    h.snap();

    let r = h.top_of(None, TopMode::Shrink);
    assert_eq!(names(&r), vec!["big".to_string(), "med".to_string(), "small".to_string()]);
    h.matches_diff(&r, TopMode::Shrink);
}

#[test]
fn render_applies_limit() {
    let mut h = new_harness();
    for i in 0..8 {
        h.write(&format!("d{i}/f"), &[1u8; 1]);
    }
    h.snap();
    for i in 0..8 {
        h.write(&format!("d{i}/g"), &vec![1u8; i + 1]);
    }
    h.snap();

    let r = h.top_of(None, TopMode::Growth);
    assert_eq!(r.entries.len(), 8);
    let text = render_top::render(&r, Some(2), local_offset(r.before.created_at_ms), local_offset(r.after.created_at_ms), None);
    assert!(text.contains("Top Disk Growth"));
    let ok = text.lines().filter(|l| l.trim_start().starts_with('+')).count();
    assert_eq!(ok, 2);
    assert!(text.contains("... 6 more"));
}

#[test]
fn all_zero_yields_empty_ranking() {
    let mut h = new_harness();
    h.write("a/f", &[1u8; 10]);
    h.snap();
    h.snap();
    let r = h.top_of(None, TopMode::Growth);
    assert!(r.entries.is_empty());
}

#[test]
fn added_directory_appears_in_growth() {
    let mut h = new_harness();
    h.write("a/f", &[1u8; 1]);
    h.snap();
    h.write("fresh/f", &[1u8; 500]);
    h.snap();
    let r = h.top_of(None, TopMode::Growth);
    let e = r.entries.iter().find(|e| e.path.ends_with("/fresh")).unwrap();
    assert_eq!(e.state, DiffState::Added);
}

#[test]
fn removed_directory_appears_in_shrink() {
    let mut h = new_harness();
    h.write("dead/f", &[1u8; 333]);
    h.snap();
    h.remove("dead");
    h.snap();
    let r = h.top_of(None, TopMode::Shrink);
    let e = r.entries.iter().find(|e| e.path.ends_with("/dead")).unwrap();
    assert_eq!(e.state, DiffState::Removed);
    assert_eq!(e.delta, -333);
}

#[test]
fn nested_growth_collapses_to_top_level() {
    let mut h = new_harness();
    h.write("parent/child/deep/f", &[1u8; 1]);
    h.snap();
    h.write("parent/child/deep/g", &[1u8; 250]);
    h.snap();
    let r = h.top_of(None, TopMode::Growth);
    assert_eq!(r.entries.len(), 1);
    assert_eq!(r.entries[0].delta, 250);
    assert!(!r.entries[0].path.contains("child"), "deep growth must collapse to the top-level directory");
}

#[test]
fn scoped_top_path_ranks_that_director_ys_children() {
    let mut h = new_harness();
    h.write("app/one/f", &[1u8; 1]);
    h.write("app/two/f", &[1u8; 1]);
    h.write("other/x", &[1u8; 1]);
    h.snap();
    h.write("app/one/g", &[1u8; 120]);
    h.write("app/two/g", &[1u8; 60]);
    h.snap();

    let app = h.abs("app");
    let r = h.top_of(Some(&app), TopMode::Growth);
    assert_eq!(names(&r), vec!["one".to_string(), "two".to_string()]);
    h.matches_diff(&r, TopMode::Growth);
}

#[test]
fn multiple_roots_default_selects_latest() {
    let mut h = new_harness_at("/tmp/harness/r1");
    h.mkdirs("/tmp/harness/r2");
    h.snap_root("/tmp/harness/r1");
    h.snap_root("/tmp/harness/r2");
    h.mkdirs("/tmp/harness/r2/grow");
    h.files.insert("/tmp/harness/r2/grow/f".to_string(), 700);
    h.snap_root("/tmp/harness/r2");

    let r = h.top_of(None, TopMode::Growth);
    assert_eq!(r.root, "/tmp/harness/r2");
    assert_eq!(r.entries.len(), 1);
    assert!(r.entries[0].path.starts_with(&r.root));
}

#[test]
fn scope_outside_the_root_is_rejected() {
    let mut h = new_harness();
    h.snap();
    h.snap();
    let pair = diff::select_pair(&h.snaps, DiffSelection::Default).unwrap();
    let err = top::top_scope(&pair, Some("/elsewhere"), None).unwrap_err();
    assert!(err.message().contains("outside tracked root"));
}

#[test]
fn rendered_ranking_is_exact() {
    let mut h = new_harness();
    h.write("a/f", &[1u8; 1]);
    h.write("b/f", &[1u8; 1]);
    h.snap();
    h.write("a/g", &[1u8; 300]);
    h.write("b/g", &[1u8; 20]);
    h.snap();
    let r = h.top_of(None, TopMode::Growth);
    let text = render_top::render_labeled(&r, Some(1), &"Sep 01".to_string(), &"Sep 02".to_string(), &String::new());
    assert_eq!(text, "Top Disk Growth\nSep 01 \u{2192} Sep 02\n\n        +300 B  a\n... 1 more\n");
}

/// The machine's local offset at `ms`, as the program computes it.
fn local_offset(ms: i64) -> Option<i32> {
    chrono::DateTime::from_timestamp_millis(ms)
        .map(|dt| chrono::Local.offset_from_utc_datetime(&dt.naive_utc()).local_minus_utc())
}
