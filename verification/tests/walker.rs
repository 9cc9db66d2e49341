//! Scanner tests: the walk's decisions, driven over an in-memory tree in the
//! order a directory listing reports it.


use diskdrift::pathutil::join;
use diskdrift::scanner::aggregate::DirAgg;
use diskdrift::scanner::walker::{DirDecision, EntryKind, EntryStep, Walk};
use diskdrift::scanner::{DirEntry, Elapsed, ScanOptions, ScanResult, WarningKind};

enum Node {
    File(u64),
    Dir(Vec<(&'static str, Node)>),
    Unreadable,
}

fn dir(children: Vec<(&'static str, Node)>) -> Node {
    Node::Dir(children)
}

fn visit(w: &mut Walk, path: &str, children: &[(&'static str, Node)], progress: &mut dyn FnMut(u64)) {
    for (name, node) in children {
        let n = w.visit();
        progress(n);
        let p = join(path, name);
        match node {
            Node::File(size) => w.file(*size),
            Node::Unreadable => {
                if w.dir_found(&p, Some(1)) == DirDecision::Descend {
                    w.unreadable(p.clone(), "permission denied".to_string());
                }
            }
            Node::Dir(kids) => {
                if w.dir_found(&p, Some(1)) == DirDecision::Descend {
                    w.descended(p.clone());
                    visit(w, &p, kids, progress);
                }
            }
        }
    }
    w.dir_done();
}

fn drive(opts: &ScanOptions, tree: &Node, progress: &mut dyn FnMut(u64)) -> ScanResult {
    let mut w = Walk::start(opts, Some(1));
    if let Node::Dir(kids) = tree {
        let root = opts.root.clone();
        visit(&mut w, &root, kids, progress);
    }
    assert!(w.stack.is_empty());
    w.finish(Elapsed::from_millis(3))
}

fn scan_dir(root: &str, tree: &Node) -> ScanResult {
    let opts = ScanOptions { root: root.to_string(), exclude: None, max_depth: None };
    drive(&opts, tree, &mut |_| {})
}

fn entry<'a>(res: &'a ScanResult, path: &str) -> &'a DirEntry {
    res.entries.iter().find(|e| e.path == path).unwrap()
}

fn small_tree() -> Node {
    dir(vec![("a.txt", Node::File(100)), ("b.txt", Node::File(200)), ("sub", dir(vec![("c.txt", Node::File(50))]))])
}

#[test]
fn plain_files_and_nested_dirs_are_aggregated() {
    let res = scan_dir("/t", &small_tree());
    assert_eq!(res.summary.total_size, 350);
    assert_eq!(res.summary.file_count, 3);
    assert_eq!(res.summary.dir_count, 1);
    assert_eq!(res.summary.skipped_count, 0);
    assert_eq!(res.entries.len(), 2, "root + sub only, never per-file rows");

    let root = entry(&res, "/t");
    assert_eq!(root.agg.total_size, 350);
    assert_eq!(root.agg.file_count, 3);
    assert_eq!(root.agg.dir_count, 1);

    let sub = entry(&res, "/t/sub");
    assert_eq!(sub.agg.total_size, 50);
    assert_eq!(sub.agg.file_count, 1);
    assert_eq!(sub.agg.dir_count, 0);
}

#[test]
fn large_file_reports_its_apparent_size() {
    let res = scan_dir("/t", &dir(vec![("big.bin", Node::File(10 * 1024 * 1024))]));
    assert_eq!(res.summary.total_size, 10 * 1024 * 1024);
    assert_eq!(res.summary.file_count, 1);
}

#[test]
fn unicode_spaces_and_emoji_paths_are_handled() {
    let tree = dir(vec![
        ("数据", dir(vec![("测试.txt", Node::File(2))])),
        ("h\u{e9}llo w\u{f6}rld", dir(vec![("a b c.txt", Node::File(2))])),
        ("🎉 party", dir(vec![("emoji-🎉.txt", Node::File(2))])),
        ("名前.txt", Node::File(2)),
    ]);
    let res = scan_dir("/t", &tree);
    assert_eq!(res.summary.file_count, 4);
    assert_eq!(res.summary.total_size, 8);
    assert_eq!(res.summary.dir_count, 3);
}

#[test]
fn exclusion_subtree_contributes_nothing() {
    let tree = dir(vec![
        ("keep.txt", Node::File(5)),
        ("excluded", dir(vec![("inner.txt", Node::File(3)), ("deeper", dir(vec![("x.txt", Node::File(1))]))])),
    ]);
    let opts = ScanOptions { root: "/t".to_string(), exclude: Some("/t/excluded".to_string()), max_depth: None };
    let res = drive(&opts, &tree, &mut |_| {});
    assert_eq!(res.summary.file_count, 1);
    assert_eq!(res.summary.total_size, 5);
    assert_eq!(res.summary.dir_count, 1);
    assert!(res.entries.iter().all(|e| !e.path.ends_with("excluded")), "excluded subtree must not produce an entry row");
}

#[test]
fn progress_callback_is_invoked() {
    let mut seen = 0u64;
    let opts = ScanOptions { root: "/t".to_string(), exclude: None, max_depth: None };
    let res = drive(&opts, &small_tree(), &mut |n| seen = n);
    assert!(seen >= res.summary.file_count + res.summary.dir_count);
    assert!(seen >= 3);
}

#[test]
fn depth_cap_counts_the_directory_without_descending() {
    let tree = dir(vec![("a", dir(vec![("b", dir(vec![("f", Node::File(9))]))]))]);
    let opts = ScanOptions { root: "/t".to_string(), exclude: None, max_depth: Some(1) };
    let res = drive(&opts, &tree, &mut |_| {});
    assert_eq!(res.summary.dir_count, 2);
    assert_eq!(res.summary.total_size, 0);
    assert_eq!(res.entries.len(), 2);
}

#[test]
fn other_filesystems_are_counted_not_descended() {
    let opts = ScanOptions { root: "/t".to_string(), exclude: None, max_depth: None };
    let mut w = Walk::start(&opts, Some(1));
    assert_eq!(w.dir_found("/t/mnt", Some(2)), DirDecision::CountOnly);
    assert_eq!(w.dir_found("/t/same", Some(1)), DirDecision::Descend);
    assert_eq!(w.dir_found("/t/unknown", None), DirDecision::Descend);
    w.dir_done();
    let res = w.finish(Elapsed::from_millis(0));
    assert_eq!(res.summary.dir_count, 1);
}

#[test]
fn unreadable_directories_become_warnings_not_failures() {
    let tree = dir(vec![("ok", dir(vec![("f", Node::File(4))])), ("locked", Node::Unreadable)]);
    let res = scan_dir("/t", &tree);
    assert_eq!(res.summary.skipped_count, 1);
    assert_eq!(res.warnings.len(), 1);
    assert_eq!(res.warnings[0].kind, WarningKind::UnreadableDir);
    assert_eq!(res.warnings[0].path, "/t/locked");
    assert_eq!(entry(&res, "/t").agg.skipped, 1);
    assert_eq!(res.summary.total_size, 4);
}

#[test]
fn counters_saturate_instead_of_wrapping() {
    let mut a = DirAgg::default();
    a.add_file(u64::MAX);
    a.add_file(5);
    assert_eq!(a.total_size, u64::MAX);
    assert_eq!(a.file_count, 2);
    let mut parent = DirAgg { total_size: 1, file_count: 1, dir_count: u64::MAX, skipped: 0 };
    parent.merge_child(&a);
    assert_eq!(parent.total_size, u64::MAX);
    assert_eq!(parent.file_count, 3);
    assert_eq!(parent.dir_count, u64::MAX);
    parent.add_skipped();
    parent.add_dir_only();
    assert_eq!(parent.skipped, 1);
}

#[test]
fn children_fold_the_same_in_any_order() {
    let c1 = DirAgg { total_size: 10, file_count: 2, dir_count: 1, skipped: 0 };
    let c2 = DirAgg { total_size: u64::MAX - 3, file_count: 1, dir_count: 0, skipped: 2 };
    let mut a = DirAgg::default();
    a.merge_child(&c1);
    a.merge_child(&c2);
    let mut b = DirAgg::default();
    b.merge_child(&c2);
    b.merge_child(&c1);
    assert_eq!(a, b);
    assert_eq!(a.total_size, u64::MAX);
    assert_eq!(a.dir_count, 3);
}

#[test]
fn every_warning_is_one_skip_in_the_root_total() {
    let opts = ScanOptions { root: "/t".to_string(), exclude: None, max_depth: None };
    let mut w = Walk::start(&opts, Some(1));
    assert_eq!(w.dir_found("/t/a", Some(1)), DirDecision::Descend);
    w.descended("/t/a".to_string());
    w.stat_failed("/t/a/gone".to_string(), "vanished".to_string());
    w.entry_read_failed("io error".to_string());
    w.file(7);
    w.dir_done();
    w.unreadable("/t/locked".to_string(), "permission denied".to_string());
    w.dir_done();
    let res = w.finish(Elapsed::from_millis(0));
    assert_eq!(res.warnings.len(), 3);
    assert_eq!(res.summary.skipped_count, 3);
    assert_eq!(entry(&res, "/t").agg.skipped, 3);
    assert_eq!(entry(&res, "/t/a").agg.skipped, 2);
    assert_eq!(res.warnings[1].path, "/t/a");
    assert_eq!(res.warnings[1].kind, WarningKind::EntryReadFailed);
}

#[test]
fn symlinks_are_neither_counted_nor_descended() {
    let opts = ScanOptions { root: "/t".to_string(), exclude: None, max_depth: None };
    let mut w = Walk::start(&opts, Some(1));
    assert_eq!(w.entry(EntryKind::Symlink, "/t/link-to-dir", 4096, Some(1)), EntryStep::Ignored);
    assert_eq!(w.entry(EntryKind::Symlink, "/t/dangling", 9, None), EntryStep::Ignored);
    assert_eq!(w.entry(EntryKind::File, "/t/keep.txt", 5, Some(1)), EntryStep::Counted);
    assert_eq!(w.entry(EntryKind::Other, "/t/fifo", 0, Some(1)), EntryStep::Counted);
    assert_eq!(w.entry(EntryKind::Dir, "/t/sub", 0, Some(1)), EntryStep::Descend);
    assert_eq!(w.entry(EntryKind::Dir, "/t/mnt", 0, Some(2)), EntryStep::Counted);
    w.dir_done();
    let res = w.finish(Elapsed::from_millis(0));
    assert_eq!(res.summary.file_count, 2);
    assert_eq!(res.summary.total_size, 5);
    assert_eq!(res.summary.dir_count, 1);
    assert_eq!(res.summary.skipped_count, 0);
}

#[test]
fn every_recorded_directory_lies_under_the_root() {
    let tree = dir(vec![("a", dir(vec![("b", dir(vec![("f", Node::File(1))]))])), ("c", dir(vec![]))]);
    let res = scan_dir("/t", &tree);
    let paths: Vec<&str> = res.entries.iter().map(|e| e.path.as_str()).collect();
    assert_eq!(paths, vec!["/t/a/b", "/t/a", "/t/c", "/t"]);
    assert!(res.entries.iter().all(|e| diskdrift::pathutil::is_under(&e.path, "/t")));
}

#[test]
fn rows_come_children_before_parents_and_skip_the_excluded_subtree() {
    let tree = dir(vec![
        ("keep.txt", Node::File(5)),
        ("excluded", dir(vec![("inner.txt", Node::File(7)), ("deeper", dir(vec![("x.txt", Node::File(1))]))])),
        ("a", dir(vec![("b", dir(vec![]))])),
    ]);
    let opts = ScanOptions { root: "/r".to_string(), exclude: Some("/r/excluded".to_string()), max_depth: None };
    let res = drive(&opts, &tree, &mut |_| {});
    assert_eq!((res.summary.file_count, res.summary.total_size, res.summary.dir_count), (1, 5, 3));
    let paths: Vec<&str> = res.entries.iter().map(|e| e.path.as_str()).collect();
    assert_eq!(paths, vec!["/r/a/b", "/r/a", "/r"]);
    for (k, e) in res.entries.iter().enumerate() {
        if e.path != "/r" {
            assert!(res.entries[k + 1..].iter().any(|p| diskdrift::pathutil::is_direct_child(&e.path, &p.path)));
        }
    }
}
