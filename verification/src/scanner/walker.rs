//! The decisions of a depth-first directory walk, as a state machine.
//!
//! The program owns the filesystem side (directory iterators, metadata,
//! timing) and reports each event here; [`Walk`] keeps the explicit stack of
//! open directories, folds finished directories into their parents, and
//! decides whether a found directory is descended into. Design points:
//! - an explicit stack (not recursion), so very deep trees cannot overflow
//!   the call stack;
//! - symlinks are never followed (the program skips them before asking);
//! - best-effort accounting: a failing entry becomes a `skipped` count plus a
//!   warning, never a failed scan;
//! - a directory on another filesystem, under the excluded subtree, or past
//!   the depth cap is counted (one directory, no data) but not descended.
use vstd::prelude::*;
use crate::pathutil::{direct_child, is_under, law_under_is_a_partial_order, under};
use crate::scanner::aggregate::{merged, with_dir_only, with_file, with_skipped, DirAgg};
use crate::scanner::entry::DirEntry;
use crate::scanner::{Elapsed, ScanOptions, ScanResult, ScanSummary, ScanWarning, WarningKind};

verus! {

/// One open directory.
#[derive(Debug, Clone)]
pub struct WalkFrame {
    pub path: String,
    pub agg: DirAgg,
    /// Depth below the root (the root is 0).
    pub depth: usize,
}

/// What to do with a directory that was found.
#[derive(Debug, Clone, Copy, PartialEq, Eq, Structural)]
pub enum DirDecision {
    /// Count it as one directory, do not read it.
    CountOnly,
    /// Open it and walk its entries.
    Descend,
}

/// What a directory listing reported an entry to be (from its own
/// metadata: symlinks are not resolved).
#[derive(Debug, Clone, Copy, PartialEq, Eq, Structural)]
pub enum EntryKind {
    /// A regular file.
    File,
    /// A directory.
    Dir,
    /// A symbolic link (to anything, or dangling).
    Symlink,
    /// Any other kind (device, socket, fifo): counted as a file.
    Other,
}

/// What became of one listed entry.
#[derive(Debug, Clone, Copy, PartialEq, Eq, Structural)]
pub enum EntryStep {
    /// Not accounted at all (a symlink).
    Ignored,
    /// Counted in the current directory.
    Counted,
    /// A directory to open and walk next.
    Descend,
}

/// The state of a walk.
#[derive(Clone)]
pub struct Walk {
    pub root: String,
    pub exclude: Option<String>,
    pub max_depth: Option<usize>,
    /// Device of the root, where the platform reports one.
    pub root_dev: Option<u64>,
    /// Open directories, the root at the bottom.
    pub stack: Vec<WalkFrame>,
    /// Finished directories, children before their parents.
    pub entries: Vec<DirEntry>,
    pub warnings: Vec<ScanWarning>,
    /// Entries seen so far (progress).
    pub visited: u64,
    /// Every directory opened so far: the root, then each descended one.
    pub opened: Ghost<Seq<Seq<char>>>,
}

/// `s` with the top frame's aggregate replaced by `a`.
pub open spec fn with_top_agg(s: Seq<WalkFrame>, a: DirAgg) -> Seq<WalkFrame> {
    s.update(s.len() - 1, WalkFrame { path: s.last().path, agg: a, depth: s.last().depth })
}

/// A found directory at `path` on device `dev` is only counted: it is under
/// the excluded subtree, past the depth cap, or on another filesystem.
pub open spec fn count_only(w: Walk, path: Seq<char>, dev: Option<u64>) -> bool {
    ||| (w.exclude is Some && under(path, w.exclude->0@))
    ||| (w.max_depth is Some && w.stack@.last().depth + 1 > w.max_depth->0)
    ||| (w.root_dev is Some && dev is Some && dev->0 != w.root_dev->0)
}

/// The paths of the open frames, bottom to top.
pub open spec fn frame_paths(s: Seq<WalkFrame>) -> Seq<Seq<char>> {
    Seq::new(s.len(), |i: int| s[i].path@)
}

/// The paths of the recorded rows, in order.
pub open spec fn entry_paths(e: Seq<DirEntry>) -> Seq<Seq<char>> {
    Seq::new(e.len(), |k: int| e[k].path@)
}

/// Row `k` is the root's, or its parent directory's row comes later.
pub open spec fn parent_row_later(root: Seq<char>, ep: Seq<Seq<char>>, k: int) -> bool {
    ||| ep[k] == root
    ||| exists|k2: int| k < k2 < ep.len() && #[trigger] direct_child(ep[k], ep[k2])
}

/// `p` lies in the excluded subtree only if the root itself does.
pub open spec fn outside_exclusion(root: Seq<char>, ex: Option<Seq<char>>, p: Seq<char>) -> bool {
    ex matches Some(x) ==> (under(p, x) ==> under(root, x))
}

/// How open frames and recorded rows nest: each frame is a direct child
/// of the one below it; each row is the root's, or its parent is still
/// open, or its parent's row comes later; and nothing under the excluded
/// subtree is open or recorded unless the root itself lies there.
pub open spec fn nesting(root: Seq<char>, ex: Option<Seq<char>>, fp: Seq<Seq<char>>, ep: Seq<Seq<char>>) -> bool {
    &&& forall|i: int| 1 <= i < fp.len() ==> #[trigger] direct_child(fp[i], fp[i - 1])
    &&& forall|k: int| 0 <= k < ep.len() ==> #[trigger] parent_row_later(root, ep, k)
            || exists|i: int| 0 <= i < fp.len() && #[trigger] direct_child(ep[k], fp[i])
    &&& forall|i: int| 0 <= i < fp.len() ==> #[trigger] outside_exclusion(root, ex, fp[i])
    &&& forall|k: int| 0 <= k < ep.len() ==> #[trigger] outside_exclusion(root, ex, ep[k])
}

pub open spec fn opt_view(o: Option<String>) -> Option<Seq<char>> {
    match o { Some(x) => Some(x@), None => None }
}

proof fn lemma_move_last(ep: Seq<Seq<char>>, fp: Seq<Seq<char>>)
    requires
        fp.len() > 0,
    ensures
        (ep.push(fp.last()) + fp.drop_last()).to_multiset() == (ep + fp).to_multiset(),
{
    broadcast use vstd::seq_lib::group_to_multiset_ensures, vstd::seq_lib::lemma_multiset_commutative;
    let t = fp.last();
    let rest = fp.drop_last();
    assert(rest.push(t) =~= fp);
    assert((ep.push(t) + rest).to_multiset() =~= ep.to_multiset().insert(t).add(rest.to_multiset()));
    assert((ep + rest.push(t)).to_multiset() =~= ep.to_multiset().add(rest.to_multiset().insert(t)));
}

proof fn lemma_push_frame(ep: Seq<Seq<char>>, fp: Seq<Seq<char>>, q: Seq<char>, log: Seq<Seq<char>>)
    ensures
        (ep + fp.push(q)).to_multiset() == (ep + fp).to_multiset().insert(q),
        log.push(q).to_multiset() == log.to_multiset().insert(q),
{
    broadcast use vstd::seq_lib::group_to_multiset_ensures;
    assert(ep + fp.push(q) =~= (ep + fp).push(q));
}

proof fn lemma_top_agg_paths(s: Seq<WalkFrame>, a: DirAgg)
    requires
        s.len() > 0,
    ensures
        frame_paths(with_top_agg(s, a)) == frame_paths(s),
{
    assert(frame_paths(with_top_agg(s, a)) =~= frame_paths(s));
}

proof fn lemma_nesting_pop(root: Seq<char>, ex: Option<Seq<char>>, fp: Seq<Seq<char>>, ep: Seq<Seq<char>>)
    requires
        nesting(root, ex, fp, ep),
        fp.len() > 0,
        fp.len() == 1 ==> fp[0] == root,
    ensures
        nesting(root, ex, fp.drop_last(), ep.push(fp.last())),
{
    let fp2 = fp.drop_last();
    let ep2 = ep.push(fp.last());
    let n = ep.len() as int;
    assert forall|i: int| 1 <= i < fp2.len() implies #[trigger] direct_child(fp2[i], fp2[i - 1]) by {
        assert(direct_child(fp[i], fp[i - 1]));
    }
    assert forall|k: int| 0 <= k < ep2.len() implies #[trigger] parent_row_later(root, ep2, k)
        || exists|i: int| 0 <= i < fp2.len() && #[trigger] direct_child(ep2[k], fp2[i]) by {
        if k == n {
            if fp.len() > 1 {
                let t = fp.len() - 1;
                assert(direct_child(fp[t], fp[t - 1]));
                assert(direct_child(ep2[k], fp2[t - 1]));
            }
        } else {
            assert(ep2[k] == ep[k]);
            if parent_row_later(root, ep, k) {
                if ep[k] != root {
                    let k2 = choose|k2: int| k < k2 < ep.len() && #[trigger] direct_child(ep[k], ep[k2]);
                    assert(direct_child(ep2[k], ep2[k2]));
                }
            } else {
                let i = choose|i: int| 0 <= i < fp.len() && #[trigger] direct_child(ep[k], fp[i]);
                if i == fp.len() - 1 {
                    assert(direct_child(ep2[k], ep2[n]));
                    assert(parent_row_later(root, ep2, k));
                } else {
                    assert(direct_child(ep2[k], fp2[i]));
                }
            }
        }
    }
    assert forall|i: int| 0 <= i < fp2.len() implies #[trigger] outside_exclusion(root, ex, fp2[i]) by {
        assert(outside_exclusion(root, ex, fp[i]));
    }
    assert forall|k: int| 0 <= k < ep2.len() implies #[trigger] outside_exclusion(root, ex, ep2[k]) by {
        if k == n {
            assert(outside_exclusion(root, ex, fp[fp.len() - 1]));
        } else {
            assert(outside_exclusion(root, ex, ep[k]));
        }
    }
}

proof fn lemma_nesting_push(root: Seq<char>, ex: Option<Seq<char>>, fp: Seq<Seq<char>>, ep: Seq<Seq<char>>, q: Seq<char>)
    requires
        nesting(root, ex, fp, ep),
        fp.len() > 0,
        direct_child(q, fp.last()),
        outside_exclusion(root, ex, q),
    ensures
        nesting(root, ex, fp.push(q), ep),
{
    let fp2 = fp.push(q);
    assert forall|i: int| 1 <= i < fp2.len() implies #[trigger] direct_child(fp2[i], fp2[i - 1]) by {
        if i < fp.len() { assert(direct_child(fp[i], fp[i - 1])); }
    }
    assert forall|k: int| 0 <= k < ep.len() implies #[trigger] parent_row_later(root, ep, k)
        || exists|i: int| 0 <= i < fp2.len() && #[trigger] direct_child(ep[k], fp2[i]) by {
        if !parent_row_later(root, ep, k) {
            let i = choose|i: int| 0 <= i < fp.len() && #[trigger] direct_child(ep[k], fp[i]);
            assert(direct_child(ep[k], fp2[i]));
        }
    }
    assert forall|i: int| 0 <= i < fp2.len() implies #[trigger] outside_exclusion(root, ex, fp2[i]) by {
        if i < fp.len() { assert(outside_exclusion(root, ex, fp[i])); }
    }
}

/// The skips held by the open frames, bottom to top.
pub open spec fn frames_skipped(s: Seq<WalkFrame>) -> nat
    decreases s.len(),
{
    if s.len() == 0 {
        0
    } else {
        frames_skipped(s.drop_last()) + s.last().agg.skipped as nat
    }
}

proof fn lemma_frames_skipped_top(s: Seq<WalkFrame>, a: DirAgg)
    requires
        s.len() > 0,
    ensures
        frames_skipped(with_top_agg(s, a)) == frames_skipped(s.drop_last()) + a.skipped,
{
    assert(with_top_agg(s, a).drop_last() =~= s.drop_last());
}

proof fn lemma_frames_skipped_push(s: Seq<WalkFrame>, f: WalkFrame)
    ensures
        frames_skipped(s.push(f)) == frames_skipped(s) + f.agg.skipped,
{
    assert(s.push(f).drop_last() =~= s);
}

impl Walk {
    /// Frames sit at their depth, the root frame at the bottom; once the
    /// stack is empty the root's entry is the last one recorded. Every
    /// warning is one skip: the open frames hold as many skips as there are
    /// warnings, and once the walk is finished the root entry holds them all.
    /// Every open and every recorded directory lies under the root, and
    /// they nest as [`nesting`] says; the stack never passes the depth cap.
    pub open spec fn wf(&self) -> bool {
        &&& forall|i: int| 0 <= i < self.stack@.len() ==> (#[trigger] self.stack@[i]).depth == i
        &&& self.stack@.len() > 0 ==> self.stack@[0].path == self.root
        &&& self.stack@.len() == 0 ==> self.entries@.len() > 0 && self.entries@.last().path == self.root
        &&& self.stack@.len() > 0 ==> frames_skipped(self.stack@) == self.warnings@.len()
        &&& self.stack@.len() == 0 ==> self.entries@.last().agg.skipped == self.warnings@.len()
        &&& forall|i: int| 0 <= i < self.stack@.len() ==> under((#[trigger] self.stack@[i]).path@, self.root@)
        &&& nesting(self.root@, opt_view(self.exclude), frame_paths(self.stack@), entry_paths(self.entries@))
        &&& self.max_depth matches Some(m) ==> self.stack@.len() <= m + 1
        &&& (entry_paths(self.entries@) + frame_paths(self.stack@)).to_multiset() == self.opened@.to_multiset()
        &&& forall|k: int| 0 <= k < self.entries@.len() ==> under((#[trigger] self.entries@[k]).path@, self.root@)
    }

    /// Every directory has been finished.
    pub open spec fn finished(&self) -> bool {
        self.stack@.len() == 0
    }

    /// Start a walk of `opts.root` (already opened by the program).
    pub fn start(opts: &ScanOptions, root_dev: Option<u64>) -> (w: Walk)
        ensures
            w.wf(),
            w.root == opts.root,
            w.exclude == opts.exclude,
            w.max_depth == opts.max_depth,
            w.root_dev == root_dev,
            w.stack@ == seq![WalkFrame { path: opts.root, agg: DirAgg { total_size: 0, file_count: 0, dir_count: 0, skipped: 0 }, depth: 0 }],
            w.entries@.len() == 0,
            w.warnings@.len() == 0,
            w.visited == 0,
    {
        let mut stack: Vec<WalkFrame> = Vec::new();
        let frame = WalkFrame { path: opts.root.clone(), agg: DirAgg::empty(), depth: 0 };
        proof {
            lemma_frames_skipped_push(stack@, frame);
        }
        stack.push(frame);
        assert(frame_paths(stack@) =~= seq![opts.root@]);
        assert(entry_paths(Seq::<DirEntry>::empty()) =~= Seq::<Seq<char>>::empty());
        assert(Seq::<Seq<char>>::empty() + seq![opts.root@] =~= seq![opts.root@]);
        let opened: Ghost<Seq<Seq<char>>> = Ghost(Seq::<Seq<char>>::empty().push(opts.root@));
        Walk {
            root: opts.root.clone(),
            exclude: opts.exclude.clone(),
            max_depth: opts.max_depth,
            root_dev,
            stack,
            entries: Vec::new(),
            warnings: Vec::new(),
            visited: 0,
            opened,
        }
    }

    /// One more entry was read; returns the progress count.
    pub fn visit(&mut self) -> (n: u64)
        ensures
            final(self).visited == (if old(self).visited == u64::MAX { u64::MAX } else { (old(self).visited + 1) as u64 }),
            n == final(self).visited,
            final(self).stack == old(self).stack,
            final(self).entries == old(self).entries,
            final(self).warnings == old(self).warnings,
            final(self).root == old(self).root,
            final(self).exclude == old(self).exclude,
            final(self).max_depth == old(self).max_depth,
            final(self).root_dev == old(self).root_dev,
    {
        self.visited = self.visited.saturating_add(1);
        self.visited
    }

    fn set_top_agg(&mut self, a: DirAgg)
        requires
            old(self).stack@.len() > 0,
        ensures
            final(self).stack@ == with_top_agg(old(self).stack@, a),
            frame_paths(final(self).stack@) == frame_paths(old(self).stack@),
            final(self).opened == old(self).opened,
            final(self).entries == old(self).entries,
            final(self).warnings == old(self).warnings,
            final(self).visited == old(self).visited,
            final(self).root == old(self).root,
            final(self).exclude == old(self).exclude,
            final(self).max_depth == old(self).max_depth,
            final(self).root_dev == old(self).root_dev,
    {
        let n = self.stack.len();
        let path = self.stack[n - 1].path.clone();
        let depth = self.stack[n - 1].depth;
        self.stack.set(n - 1, WalkFrame { path, agg: a, depth });
        proof { lemma_top_agg_paths(old(self).stack@, a); }
    }

    /// The top directory's iterator is exhausted: record it and fold it into
    /// its parent.
    pub fn dir_done(&mut self)
        requires
            old(self).wf(),
            !old(self).finished(),
        ensures
            final(self).wf(),
            ({
                let top = old(self).stack@.last();
                let rest = old(self).stack@.drop_last();
                &&& final(self).stack@ == (if rest.len() > 0 { with_top_agg(rest, merged(rest.last().agg, top.agg)) } else { rest })
                &&& final(self).entries@ == old(self).entries@.push(DirEntry { path: top.path, agg: top.agg })
            }),
            final(self).warnings == old(self).warnings,
            final(self).visited == old(self).visited,
            final(self).root == old(self).root,
            final(self).exclude == old(self).exclude,
            final(self).max_depth == old(self).max_depth,
            final(self).root_dev == old(self).root_dev,
    {
        let ghost before = self.stack@;
        let ghost old_entries = self.entries@;
        proof {
            lemma_nesting_pop(self.root@, opt_view(self.exclude), frame_paths(before), entry_paths(old_entries));
            assert(frame_paths(before).drop_last() =~= frame_paths(before.drop_last()));
            lemma_move_last(entry_paths(old_entries), frame_paths(before));
        }
        let frame = self.stack.pop().unwrap();
        if self.stack.len() > 0 {
            let n = self.stack.len();
            let mut parent = self.stack[n - 1].agg;
            proof {
                let rest = before.drop_last();
                assert(self.warnings.len() == self.warnings@.len());
                assert(frames_skipped(before) == frames_skipped(rest) + frame.agg.skipped);
                assert(frames_skipped(rest) == frames_skipped(rest.drop_last()) + rest.last().agg.skipped);
                lemma_frames_skipped_top(rest, merged(parent, frame.agg));
            }
            parent.merge_child(&frame.agg);
            self.set_top_agg(parent);
        } else {
            proof {
                assert(frames_skipped(before) == frames_skipped(before.drop_last()) + frame.agg.skipped);
            }
        }
        self.entries.push(DirEntry { path: frame.path, agg: frame.agg });
        assert(entry_paths(self.entries@) =~= entry_paths(old_entries).push(frame_paths(before).last()));
    }

    /// The top directory's iterator reported an error.
    pub fn entry_read_failed(&mut self, error: String)
        requires
            old(self).wf(),
            !old(self).finished(),
        ensures
            final(self).wf(),
            final(self).stack@ == with_top_agg(old(self).stack@, with_skipped(old(self).stack@.last().agg)),
            final(self).warnings@ == old(self).warnings@.push(ScanWarning {
                path: old(self).stack@.last().path, error, kind: WarningKind::EntryReadFailed }),
            final(self).entries == old(self).entries,
            final(self).visited == old(self).visited,
            final(self).root == old(self).root,
            final(self).exclude == old(self).exclude,
            final(self).max_depth == old(self).max_depth,
            final(self).root_dev == old(self).root_dev,
    {
        let n = self.stack.len();
        let ghost before = self.stack@;
        let mut a = self.stack[n - 1].agg;
        proof {
            lemma_frames_skipped_top(before, with_skipped(a));
        }
        a.add_skipped();
        let path = self.stack[n - 1].path.clone();
        self.set_top_agg(a);
        self.warnings.push(ScanWarning { path, error, kind: WarningKind::EntryReadFailed });
        proof {
            assert(self.warnings.len() == self.warnings@.len());
            assert(frames_skipped(before) == frames_skipped(before.drop_last()) + before.last().agg.skipped);
        }
    }

    /// Reading the metadata of the entry at `path` failed.
    pub fn stat_failed(&mut self, path: String, error: String)
        requires
            old(self).wf(),
            !old(self).finished(),
        ensures
            final(self).wf(),
            final(self).stack@ == with_top_agg(old(self).stack@, with_skipped(old(self).stack@.last().agg)),
            final(self).warnings@ == old(self).warnings@.push(ScanWarning { path, error, kind: WarningKind::StatFailed }),
            final(self).entries == old(self).entries,
            final(self).visited == old(self).visited,
            final(self).root == old(self).root,
            final(self).exclude == old(self).exclude,
            final(self).max_depth == old(self).max_depth,
            final(self).root_dev == old(self).root_dev,
    {
        let n = self.stack.len();
        let ghost before = self.stack@;
        let mut a = self.stack[n - 1].agg;
        proof {
            lemma_frames_skipped_top(before, with_skipped(a));
        }
        a.add_skipped();
        self.set_top_agg(a);
        self.warnings.push(ScanWarning { path, error, kind: WarningKind::StatFailed });
        proof {
            assert(self.warnings.len() == self.warnings@.len());
            assert(frames_skipped(before) == frames_skipped(before.drop_last()) + before.last().agg.skipped);
        }
    }

    /// A regular or special file of `size` bytes (counted once).
    pub fn file(&mut self, size: u64)
        requires
            old(self).wf(),
            !old(self).finished(),
        ensures
            final(self).wf(),
            final(self).stack@ == with_top_agg(old(self).stack@, with_file(old(self).stack@.last().agg, size)),
            final(self).warnings == old(self).warnings,
            final(self).entries == old(self).entries,
            final(self).visited == old(self).visited,
            final(self).root == old(self).root,
            final(self).exclude == old(self).exclude,
            final(self).max_depth == old(self).max_depth,
            final(self).root_dev == old(self).root_dev,
    {
        let n = self.stack.len();
        let mut a = self.stack[n - 1].agg;
        proof {
            lemma_frames_skipped_top(self.stack@, with_file(a, size));
        }
        a.add_file(size);
        self.set_top_agg(a);
    }

    /// A directory was found at `path` (on device `dev`): count it only, or
    /// tell the program to open it.
    pub fn dir_found(&mut self, path: &str, dev: Option<u64>) -> (d: DirDecision)
        requires
            old(self).wf(),
            !old(self).finished(),
        ensures
            final(self).wf(),
            d == (if count_only(*old(self), path@, dev) { DirDecision::CountOnly } else { DirDecision::Descend }),
            final(self).stack@ == (if d == DirDecision::CountOnly {
                with_top_agg(old(self).stack@, with_dir_only(old(self).stack@.last().agg))
            } else {
                old(self).stack@
            }),
            final(self).warnings == old(self).warnings,
            final(self).entries == old(self).entries,
            final(self).visited == old(self).visited,
            final(self).root == old(self).root,
            final(self).exclude == old(self).exclude,
            final(self).max_depth == old(self).max_depth,
            final(self).root_dev == old(self).root_dev,
    {
        let n = self.stack.len();
        let depth = self.stack[n - 1].depth;
        let excluded = match &self.exclude {
            Some(x) => is_under(path, x.as_str()),
            None => false,
        };
        let too_deep = match self.max_depth {
            Some(limit) => depth >= limit,
            None => false,
        };
        let other_fs = match (self.root_dev, dev) {
            (Some(r), Some(c)) => c != r,
            _ => false,
        };
        if excluded || too_deep || other_fs {
            let mut a = self.stack[n - 1].agg;
            proof {
                lemma_frames_skipped_top(self.stack@, with_dir_only(a));
            }
            a.add_dir_only();
            self.set_top_agg(a);
            DirDecision::CountOnly
        } else {
            DirDecision::Descend
        }
    }

    /// One listed entry at `path` of `kind` (`size` bytes, on device `dev`).
    /// A symlink is never followed: it changes no counter and is never
    /// descended. A file or other entry is counted with its size. A
    /// directory is counted only, or to be descended (see [`Walk::dir_found`]).
    pub fn entry(&mut self, kind: EntryKind, path: &str, size: u64, dev: Option<u64>) -> (step: EntryStep)
        requires
            old(self).wf(),
            !old(self).finished(),
        ensures
            final(self).wf(),
            kind == EntryKind::Symlink ==> step == EntryStep::Ignored && *final(self) == *old(self),
            (kind == EntryKind::File || kind == EntryKind::Other) ==> step == EntryStep::Counted
                && final(self).stack@ == with_top_agg(old(self).stack@, with_file(old(self).stack@.last().agg, size)),
            kind == EntryKind::Dir ==> ({
                &&& step == (if count_only(*old(self), path@, dev) { EntryStep::Counted } else { EntryStep::Descend })
                &&& final(self).stack@ == (if step == EntryStep::Counted {
                        with_top_agg(old(self).stack@, with_dir_only(old(self).stack@.last().agg))
                    } else {
                        old(self).stack@
                    })
            }),
            final(self).warnings == old(self).warnings,
            final(self).entries == old(self).entries,
            final(self).visited == old(self).visited,
            final(self).root == old(self).root,
            final(self).exclude == old(self).exclude,
            final(self).max_depth == old(self).max_depth,
            final(self).root_dev == old(self).root_dev,
    {
        match kind {
            EntryKind::Symlink => EntryStep::Ignored,
            EntryKind::File | EntryKind::Other => {
                self.file(size);
                EntryStep::Counted
            },
            EntryKind::Dir => {
                if self.dir_found(path, dev) == DirDecision::CountOnly {
                    EntryStep::Counted
                } else {
                    EntryStep::Descend
                }
            },
        }
    }

    /// The program opened the directory at `path`, a direct child of the
    /// directory being read: walk it next.
    pub fn descended(&mut self, path: String)
        requires
            old(self).wf(),
            !old(self).finished(),
            direct_child(path@, old(self).stack@.last().path@),
            outside_exclusion(old(self).root@, opt_view(old(self).exclude), path@),
            old(self).max_depth matches Some(m) ==> old(self).stack@.last().depth < m,
        ensures
            final(self).wf(),
            final(self).stack@ == old(self).stack@.push(WalkFrame {
                path, agg: DirAgg { total_size: 0, file_count: 0, dir_count: 0, skipped: 0 },
                depth: (old(self).stack@.last().depth + 1) as usize }),
            final(self).warnings == old(self).warnings,
            final(self).entries == old(self).entries,
            final(self).visited == old(self).visited,
            final(self).root == old(self).root,
            final(self).exclude == old(self).exclude,
            final(self).max_depth == old(self).max_depth,
            final(self).root_dev == old(self).root_dev,
    {
        let n = self.stack.len();
        let depth = self.stack[n - 1].depth + 1;
        let frame = WalkFrame { path, agg: DirAgg::empty(), depth };
        proof {
            lemma_frames_skipped_push(self.stack@, frame);
            law_under_is_a_partial_order(frame.path@, self.stack@[n - 1].path@, self.root@);
            lemma_nesting_push(self.root@, opt_view(self.exclude), frame_paths(self.stack@), entry_paths(self.entries@), frame.path@);
            assert(frame_paths(self.stack@.push(frame)) =~= frame_paths(self.stack@).push(frame.path@));
            lemma_push_frame(entry_paths(self.entries@), frame_paths(self.stack@), frame.path@, self.opened@);
        }
        let opened: Ghost<Seq<Seq<char>>> = Ghost(self.opened@.push(frame.path@));
        self.opened = opened;
        self.stack.push(frame);
    }

    /// The directory at `path` could not be opened.
    pub fn unreadable(&mut self, path: String, error: String)
        requires
            old(self).wf(),
            !old(self).finished(),
        ensures
            final(self).wf(),
            final(self).stack@ == with_top_agg(old(self).stack@, with_skipped(old(self).stack@.last().agg)),
            final(self).warnings@ == old(self).warnings@.push(ScanWarning { path, error, kind: WarningKind::UnreadableDir }),
            final(self).entries == old(self).entries,
            final(self).visited == old(self).visited,
            final(self).root == old(self).root,
            final(self).exclude == old(self).exclude,
            final(self).max_depth == old(self).max_depth,
            final(self).root_dev == old(self).root_dev,
    {
        let n = self.stack.len();
        let ghost before = self.stack@;
        let mut a = self.stack[n - 1].agg;
        proof {
            lemma_frames_skipped_top(before, with_skipped(a));
        }
        a.add_skipped();
        self.set_top_agg(a);
        self.warnings.push(ScanWarning { path, error, kind: WarningKind::UnreadableDir });
        proof {
            assert(self.warnings.len() == self.warnings@.len());
            assert(frames_skipped(before) == frames_skipped(before.drop_last()) + before.last().agg.skipped);
        }
    }

    /// The finished walk as a scan result: the summary is the root entry's
    /// aggregate, and its skip count is the number of warnings. There is
    /// one row per opened directory (the root and each descended one). Rows come
    /// children before parents: every row but the root's has its parent's
    /// row after it. No row lies in the excluded subtree (unless the root
    /// itself does).
    pub fn finish(self, elapsed: Elapsed) -> (r: ScanResult)
        requires
            self.wf(),
            self.finished(),
        ensures
            r.root == self.root,
            r.entries == self.entries,
            r.warnings == self.warnings,
            r.entries@.last().path == r.root,
            forall|k: int| 0 <= k < r.entries@.len() ==> under((#[trigger] r.entries@[k]).path@, r.root@),
            forall|k: int| 0 <= k < r.entries@.len() ==> #[trigger] parent_row_later(r.root@, entry_paths(r.entries@), k),
            entry_paths(r.entries@).to_multiset() == self.opened@.to_multiset(),
            forall|k: int| 0 <= k < r.entries@.len() ==> #[trigger] outside_exclusion(r.root@, opt_view(self.exclude), entry_paths(r.entries@)[k]),
            r.summary.total_size == self.entries@.last().agg.total_size,
            r.summary.file_count == self.entries@.last().agg.file_count,
            r.summary.dir_count == self.entries@.last().agg.dir_count,
            r.summary.skipped_count == self.warnings@.len(),
            r.summary.skipped_count == r.entries@.last().agg.skipped,
            r.summary.elapsed == elapsed,
    {
        let n = self.entries.len();
        let root_agg = self.entries[n - 1].agg;
        assert(self.warnings.len() == self.warnings@.len());
        let summary = ScanSummary {
            total_size: root_agg.total_size,
            file_count: root_agg.file_count,
            dir_count: root_agg.dir_count,
            skipped_count: self.warnings.len() as u64,
            elapsed,
        };
        ScanResult { root: self.root, entries: self.entries, summary, warnings: self.warnings }
    }
}

} // verus!
