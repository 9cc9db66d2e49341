//! `top`: a quick ranking of the biggest growers / shrinkers.
//!
//! No delta logic of its own: a thin view over the diff engine. `top`
//! without a path ranks the tracked root's direct children; `top <path>`
//! ranks the target's direct children, exactly the attribution `inspect`
//! shows, without the `other` framing.
use vstd::prelude::*;
use crate::diff::{compute_pair, group_spec, DiffEntry, SelectedPair, SinceInfo};
use crate::error::WhyBigError;
use crate::history::history_target_text;
use crate::pathutil::{is_under, normalize_target, under};
use crate::storage::models::{EntryRecord, SnapshotRecord};

verus! {

/// Which side of the change to rank.
#[derive(Debug, Clone, Copy, PartialEq, Eq, Structural)]
pub enum TopMode {
    /// Everything that grew (largest delta first).
    Growth,
    /// Everything that shrank (most space freed first, by |delta|).
    Shrink,
}

/// Result of a `top` query.
#[derive(Debug, Clone)]
pub struct TopReport {
    pub root: String,
    /// The scope directory (tracked root, or the `<path>` target).
    pub scope: String,
    pub before: SnapshotRecord,
    pub after: SnapshotRecord,
    pub mode: TopMode,
    /// Sorted by the diff engine (growth desc / shrink |delta| desc).
    pub entries: Vec<DiffEntry>,
    /// Present only when `--since` selected the pair.
    pub since: Option<SinceInfo>,
}

/// The directory to rank: `raw_target` (relative to `cwd`, normalized) or
/// the pair's root; it must lie under that root.
pub fn top_scope(pair: &SelectedPair, raw_target: Option<&str>, cwd: Option<&str>) -> (r: Result<String, WhyBigError>)
    ensures
        ({
            let root = pair.after.root_path@;
            let t = history_target_text(root, match raw_target { Some(x) => Some(x@), None => None },
                match cwd { Some(c) => Some(c@), None => None });
            if raw_target is None {
                r is Ok && r->Ok_0@ == root
            } else if under(t, root) {
                r is Ok && r->Ok_0@ == t
            } else {
                &&& r is Err
                &&& (r->Err_0 matches WhyBigError::PathOutsideRoot { path, root: rt } && path@ == t && rt@ == root)
            }
        }),
{
    let root = &pair.after.root_path;
    match raw_target {
        None => Ok(root.clone()),
        Some(t) => {
            let target = normalize_target(t, cwd);
            if !is_under(target.as_str(), root.as_str()) {
                return Err(WhyBigError::PathOutsideRoot { path: target, root: root.clone() });
            }
            Ok(target)
        },
    }
}

/// Rank the direct-children changes of `scope` between the pair's two
/// snapshots; `before_children` / `after_children` are the stored child
/// rows of `scope` in each.
pub fn top(pair: &SelectedPair, scope: &str, mode: TopMode,
    before_children: &Vec<EntryRecord>, after_children: &Vec<EntryRecord>) -> (r: TopReport)
    ensures
        r.root == pair.after.root_path,
        r.scope@ == scope@,
        r.before == pair.before,
        r.after == pair.after,
        r.mode == mode,
        group_spec(r.entries@, before_children@, after_children@, scope@, if mode == TopMode::Growth { 1 } else { -1 }),
        r.since == pair.since,
{
    let d = compute_pair(pair, scope, before_children, after_children);
    let entries = match mode {
        TopMode::Growth => d.grew,
        TopMode::Shrink => d.shrank,
    };
    TopReport {
        root: pair.after.root_path.clone(),
        scope: scope.to_string(),
        before: d.before,
        after: d.after,
        mode,
        entries,
        since: d.since,
    }
}

} // verus!
