//! Inspect tests: drill into one directory; contributors are its direct
//! children, and `other` is what they do not explain.

use std::collections::{BTreeMap, BTreeSet};

use diskdrift::diff::{self, DiffEntry, DiffSelection, DiffState};
use diskdrift::error::WhyBigError;
use diskdrift::inspect::{self, InspectReport};
use diskdrift::pathutil;
use diskdrift::storage::models::{EntryRecord, SnapshotRecord};
use diskdrift::storage::query::keep_direct_children;

// In-memory stand-in for a scanned directory tree and the snapshot
// database: `write` / `remove` change the tree, `snap` records every
// directory's recursive aggregate exactly as a scan would, and the queries
// below answer what the database answers.
struct Harness {
    root: String,
    files: BTreeMap<String, u64>,
    dirs: BTreeSet<String>,
    snaps: Vec<SnapshotRecord>,
    rows: Vec<Vec<EntryRecord>>,
    clock: i64,
}

fn new_harness() -> Harness {
    new_harness_at("/tmp/harness/tree")
}

fn new_harness_at(root: &str) -> Harness {
    let mut dirs = BTreeSet::new();
    dirs.insert(root.to_string());
    Harness {
        root: root.to_string(),
        files: BTreeMap::new(),
        dirs,
        snaps: Vec::new(),
        rows: Vec::new(),
        clock: 1_700_000_000_000,
    }
}

fn strictly_under(p: &str, dir: &str) -> bool {
    pathutil::is_under(p, dir) && !pathutil::paths_equal(p, dir)
}

impl Harness {
    fn abs(&self, rel: &str) -> String {
        pathutil::join(&self.root, rel)
    }

    fn mkdirs(&mut self, abs_dir: &str) {
        let mut cur = String::new();
        for (i, part) in abs_dir.split('/').enumerate() {
            if i == 0 {
                cur.push_str(part);
                continue;
            }
            cur.push('/');
            cur.push_str(part);
            if cur.starts_with("/tmp/harness/") {
                self.dirs.insert(cur.clone());
            }
        }
    }

    fn mkdir(&mut self, rel: &str) {
        let p = self.abs(rel);
        self.mkdirs(&p);
    }

    fn write(&mut self, rel: &str, content: &[u8]) {
        let p = self.abs(rel);
        let parent = p[..p.rfind('/').unwrap()].to_string();
        self.mkdirs(&parent);
        self.files.insert(p, content.len() as u64);
    }

    fn set_len(&mut self, rel: &str, size: u64) {
        let p = self.abs(rel);
        let parent = p[..p.rfind('/').unwrap()].to_string();
        self.mkdirs(&parent);
        self.files.insert(p, size);
    }

    fn remove_file(&mut self, rel: &str) {
        let p = self.abs(rel);
        self.files.remove(&p);
    }

    fn remove(&mut self, rel: &str) {
        let p = self.abs(rel);
        self.dirs.retain(|d| !pathutil::is_under(d, &p));
        self.files.retain(|f, _| !pathutil::is_under(f, &p));
    }

    fn snap(&mut self) -> i64 {
        let root = self.root.clone();
        self.snap_root(&root)
    }

    fn snap_at(&mut self, created_ms: i64) -> i64 {
        let root = self.root.clone();
        self.clock = created_ms;
        self.snap_root(&root)
    }

    fn snap_root(&mut self, root: &str) -> i64 {
        let mut rows = Vec::new();
        let mut total = (0u64, 0u64, 0u64);
        for d in self.dirs.iter().filter(|d| pathutil::is_under(d, root)) {
            let size: u64 = self.files.iter().filter(|(f, _)| strictly_under(f, d)).map(|(_, s)| *s).sum();
            let count = self.files.keys().filter(|f| strictly_under(f, d)).count() as u64;
            let sub = self.dirs.iter().filter(|x| strictly_under(x, d)).count() as u64;
            if d.as_str() == root {
                total = (size, count, sub);
            }
            rows.push(EntryRecord { path: d.clone(), size, file_count: count, dir_count: sub });
        }
        let id = self.snaps.len() as i64 + 1;
        self.snaps.push(SnapshotRecord {
            id,
            created_at_ms: self.clock,
            root_path: root.to_string(),
            total_size: total.0 as i64,
            file_count: total.1 as i64,
            dir_count: total.2 as i64,
            scan_duration_ms: 1,
            skipped_count: 0,
            size_kind: "apparent".to_string(),
        });
        self.rows.push(rows);
        self.clock += 60_000;
        id
    }

    /// `get_direct_children`: stored rows of one snapshot one level below `scope`.
    fn children(&self, id: i64, scope: &str) -> Vec<EntryRecord> {
        let rows: Vec<EntryRecord> = self.rows[(id - 1) as usize].clone();
        keep_direct_children(scope, rows)
    }

    /// `get_entry`: one stored row by exact path.
    fn entry(&self, id: i64, path: &str) -> Option<EntryRecord> {
        self.rows[(id - 1) as usize].iter().find(|e| e.path == path).cloned()
    }
}

impl Harness {
    fn inspect_abs(&self, target: &str) -> Result<InspectReport, WhyBigError> {
        let pair = diff::select_pair(&self.snaps, DiffSelection::Default).unwrap();
        let (b, a) = (pair.before, pair.after);
        let root = a.root_path.clone();
        let t = inspect::inspect_target(&root, target)?;
        let after_entry = self.entry(a.id, &t);
        let before_entry = self.entry(b.id, &t);
        let scope = inspect::inspect_scope(&t, &before_entry, &after_entry)?;
        inspect::inspect(
            &b,
            &a,
            &root,
            target,
            &before_entry,
            &after_entry,
            &self.children(b.id, &scope),
            &self.children(a.id, &scope),
        )
    }

    fn report(&self, target_rel: &str) -> InspectReport {
        let t = pathutil::join(&self.root, target_rel);
        self.inspect_abs(&t).unwrap()
    }
}

fn contributor<'a>(r: &'a InspectReport, abs: &str) -> Option<&'a DiffEntry> {
    r.contributors.iter().find(|e| e.path == abs)
}

#[test]
fn normal_directory_with_direct_file_growth_reports_other() {
    let mut h = new_harness();
    h.write("a/f", &[1u8; 100]);
    h.snap();
    h.write("a/g", &[1u8; 300]);
    h.snap();

    let r = h.report("a");
    assert_eq!(r.target_before, 100);
    assert_eq!(r.target_after, 400);
    assert_eq!(r.target_delta, 300);
    assert!(r.contributors.is_empty(), "no subdirectories changed");
    assert_eq!(r.other, 300, "all growth is the direct file's 'other'");
}

#[test]
fn root_directory_inspect_lists_top_level_contributors() {
    let mut h = new_harness();
    h.write("a/f", &[1u8; 100]);
    h.write("b/f", &[1u8; 50]);
    h.snap();
    h.write("a/g", &[1u8; 100]);
    h.snap();

    let r = h.report(".");
    assert_eq!(r.target_delta, 100);
    let a = contributor(&r, &h.abs("a")).unwrap();
    assert_eq!(a.delta, 100);
    assert!(contributor(&r, &h.abs("b")).is_none());
    assert_eq!(r.other, 0);
}

#[test]
fn new_directory_is_reported_from_after_only() {
    let mut h = new_harness();
    h.write("a/f", &[1u8; 1]);
    h.snap();
    h.write("newdir/sub/f", &[1u8; 250]);
    h.snap();

    let r = h.report("newdir");
    assert_eq!(r.target_before, 0, "did not exist before");
    assert_eq!(r.target_after, 250);
    assert_eq!(r.target_delta, 250);
    let sub = contributor(&r, &h.abs("newdir/sub")).unwrap();
    assert_eq!(sub.state, DiffState::Added);
}

#[test]
fn deleted_directory_is_reported_from_before_only() {
    let mut h = new_harness();
    h.write("gone/sub/f", &[1u8; 90]);
    h.write("a/f", &[1u8; 1]);
    h.snap();
    h.remove("gone");
    h.snap();

    let r = h.report("gone");
    assert_eq!(r.target_before, 90);
    assert_eq!(r.target_after, 0);
    assert_eq!(r.target_delta, -90);
    let sub = contributor(&r, &h.abs("gone/sub")).unwrap();
    assert_eq!(sub.state, DiffState::Removed);
}

#[test]
fn nonexistent_in_both_snapshots_is_an_error() {
    let mut h = new_harness();
    h.write("a/f", &[1u8; 1]);
    h.snap();
    h.snap();
    let err = h.inspect_abs(&h.abs("nope")).unwrap_err();
    assert!(err.message().contains("not a directory in either snapshot"));
}

#[test]
fn outside_tracked_root_is_rejected() {
    let mut h = new_harness();
    h.snap();
    h.snap();
    let err = h.inspect_abs("/tmp/harness/other").unwrap_err();
    assert!(err.message().contains("outside tracked root"));
}

#[test]
fn relative_path_is_joined_with_cwd() {
    let abs = pathutil::normalize_target("src", Some("/home/user/work"));
    assert!(abs.starts_with('/'));
    assert!(abs.ends_with("src"));
    let absolute = pathutil::normalize_target("/tmp", Some("/home/user/work"));
    assert_eq!(absolute, "/tmp");
}

#[test]
fn unicode_directory_inspect_works() {
    let mut h = new_harness();
    h.write("数据/子/文件.txt", &[1u8; 1]);
    h.snap();
    h.write("数据/子/新增.txt", &[2u8; 123]);
    h.snap();

    let r = h.report("数据");
    assert_eq!(r.target_delta, 123);
    let sub = contributor(&r, &h.abs("数据/子")).unwrap();
    assert_eq!(sub.delta, 123);
    assert_eq!(r.other, 0);
}

#[test]
fn contributors_are_direct_children_only_and_include_grandchild_within_child() {
    let mut h = new_harness();
    h.write("a/b/c/f", &[1u8; 10]);
    h.snap();
    h.write("a/b/c/g", &[1u8; 40]);
    h.snap();

    let r = h.report("a");
    assert_eq!(r.contributors.len(), 1, "only direct child b");
    let b = contributor(&r, &h.abs("a/b")).unwrap();
    assert_eq!(b.delta, 40, "b's aggregate includes the grandchild growth");
    assert!(contributor(&r, &h.abs("a/b/c")).is_none());
    assert_eq!(r.other, 0);
}

#[test]
fn other_is_positive_when_shrink_is_explained_by_a_removed_child() {
    let mut h = new_harness();
    h.write("a/b/f", &[1u8; 100]);
    h.snap();
    h.remove("a/b");
    h.write("a/direct.txt", &[1u8; 20]);
    h.snap();

    let r = h.report("a");
    assert_eq!(r.target_before, 100);
    assert_eq!(r.target_after, 20);
    assert_eq!(r.target_delta, -80);
    let b = contributor(&r, &h.abs("a/b")).unwrap();
    assert_eq!(b.delta, -100);
    assert_eq!(r.other, 20);
}

#[test]
fn other_is_negative_when_parent_grew_less_than_children() {
    let mut h = new_harness();
    h.write("a/b/f", &[1u8; 50]);
    h.snap();
    h.write("a/b/g", &[1u8; 500]);
    h.snap();

    let r = h.report("a");
    assert_eq!(r.other, 0);
    let _b = contributor(&r, &h.abs("a/b")).unwrap();
}

#[test]
fn windows_hierarchy_case_insensitivity_works_on_windows() {
    // Case-insensitive lookups are a Windows behaviour; on Unix the stored
    // spelling is exact and a differently-cased target is simply absent.
    let mut h = new_harness();
    h.write("CaseDir/f", &[1u8; 7]);
    h.snap();
    h.write("CaseDir/g", &[1u8; 3]);
    h.snap();
    let r = h.report("CaseDir");
    assert_eq!(r.target_delta, 3);
}

#[test]
fn empty_directory_present_in_both_snapshots_is_not_an_error() {
    let mut h = new_harness();
    h.mkdir("empty");
    h.write("a/f", &[1u8; 1]);
    h.snap();
    h.snap();

    let r = h.report("empty");
    assert_eq!(r.target_before, 0);
    assert_eq!(r.target_after, 0);
    assert_eq!(r.target_delta, 0);
    assert_eq!(r.other, 0);
}

#[test]
fn rendered_inspect_report_lists_contributors_then_other() {
    let mut h = new_harness();
    h.write("a/b/f", &[1u8; 100]);
    h.write("a/c/f", &[1u8; 10]);
    h.snap();
    h.write("a/b/g", &[1u8; 2000]);
    h.write("a/c/g", &[1u8; 10]);
    h.write("a/direct", &[1u8; 5]);
    h.snap();

    let r = h.report("a");
    let text = diskdrift::output::inspect::render_labeled(&r, Some(1), &"T1".to_string(), &"T2".to_string());
    let expected = "/tmp/harness/tree/a\nroot: /tmp/harness/tree\n\nT1  110 B  (snapshot 1)\nT2  2.1 KB  (snapshot 2)\n\nTotal growth\n+2.0 KB\n\nContributors\n\u{2500}\u{2500}\u{2500}\u{2500}\u{2500}\u{2500}\u{2500}\u{2500}\u{2500}\u{2500}\u{2500}\u{2500}\u{2500}\u{2500}\u{2500}\u{2500}\u{2500}\u{2500}\u{2500}\u{2500}\u{2500}\u{2500}\u{2500}\u{2500}\n       +2.0 KB  b/\n... 1 more contributors\n          +5 B  other\n";
    assert_eq!(text, expected);
}

#[test]
fn inspect_target_argument_is_normalized_like_other_commands() {
    assert_eq!(diskdrift::inspect::normalize_target("a/../b/./c", Some("/r")), "/r/b/c");
    assert_eq!(diskdrift::inspect::normalize_target("/abs/x/..", Some("/r")), "/abs");
}
