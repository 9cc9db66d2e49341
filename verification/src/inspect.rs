//! Inspect: drill down one level inside a directory.
//!
//! Answers "this block grew — which of its children grew?" It lists the
//! **direct children** of the target directory, plus a residual `other` row
//! that accounts for files directly in the directory (which are not stored
//! as separate rows) and any accounting gap:
//!
//! `other = target_delta - Σ(children_delta)`
use vstd::prelude::*;
use crate::diff::{merge_children_deltas, merge_spec, signed_delta, DiffEntry};
use crate::error::WhyBigError;
use crate::pathutil::{is_under, lexical_text, normalize_lexical, target_text, under};
use crate::storage::models::{EntryRecord, SnapshotRecord};

verus! {

/// Everything a renderer needs for an inspect report.
#[derive(Debug, Clone)]
pub struct InspectReport {
    pub target: String,
    /// The tracked root the pair of snapshots belongs to.
    pub root: String,
    pub before: SnapshotRecord,
    pub after: SnapshotRecord,
    /// Aggregate size of the target directory (0 when absent in that snapshot).
    pub target_before: u64,
    pub target_after: u64,
    pub target_delta: i128,
    /// Direct-child deltas (|delta| descending), zero deltas excluded.
    pub contributors: Vec<DiffEntry>,
    /// `target_delta - Σ(contributors)`. Can be positive or negative.
    pub other: i128,
}

/// Sum of the deltas of the first `n` rows.
pub open spec fn delta_sum(r: Seq<DiffEntry>, n: int) -> int
    decreases n,
{
    if n <= 0 { 0 } else { delta_sum(r, n - 1) + r[n - 1].delta }
}

/// Normalize a user-supplied inspect target: relative → joined to `cwd`,
/// then lexically collapsed (the same rule as every other command).
pub fn normalize_target(raw: &str, cwd: Option<&str>) -> (r: String)
    ensures
        r@ == target_text(raw@, match cwd { Some(c) => Some(c@), None => None }),
{
    crate::pathutil::normalize_target(raw, cwd)
}

/// Resolve the inspect target: lexically normalized, and under the root.
pub fn inspect_target(root: &str, target: &str) -> (r: Result<String, WhyBigError>)
    ensures
        if under(lexical_text(target@), root@) {
            r is Ok && r->Ok_0@ == lexical_text(target@)
        } else {
            &&& r is Err
            &&& (r->Err_0 matches WhyBigError::PathOutsideRoot { path, root: rt }
                && path@ == lexical_text(target@) && rt@ == root@)
        },
{
    let t = normalize_lexical(target);
    if !is_under(t.as_str(), root) {
        return Err(WhyBigError::PathOutsideRoot { path: t, root: root.to_string() });
    }
    Ok(t)
}

/// The directory whose children are listed: the stored spelling of the
/// target (after snapshot first), so child rows match the stored keys
/// exactly. Missing from both snapshots → `PathNotInSnapshots`.
pub fn inspect_scope(target: &str, before_entry: &Option<EntryRecord>, after_entry: &Option<EntryRecord>) -> (r: Result<String, WhyBigError>)
    ensures
        match (*before_entry, *after_entry) {
            (_, Some(a)) => r == Ok::<String, WhyBigError>(a.path),
            (Some(b), None) => r == Ok::<String, WhyBigError>(b.path),
            (None, None) => r is Err && (r->Err_0 matches WhyBigError::PathNotInSnapshots(p) && p@ == target@),
        },
{
    match after_entry {
        Some(a) => Ok(a.path.clone()),
        None => match before_entry {
            Some(b) => Ok(b.path.clone()),
            None => Err(WhyBigError::PathNotInSnapshots(target.to_string())),
        },
    }
}

/// The size an optional entry contributes (0 when absent).
pub open spec fn entry_size(e: Option<EntryRecord>) -> int {
    match e { Some(x) => x.size as int, None => 0 }
}

/// Compute an inspect report for `target` within `root`.
///
/// `before_entry` / `after_entry` are the target's rows in each snapshot
/// (exact, else case-insensitive lookup); `before_children` /
/// `after_children` are the stored direct-child rows of the scope that
/// [`inspect_scope`] names. A directory missing on one side counts as 0.
pub fn inspect(before: &SnapshotRecord, after: &SnapshotRecord, root: &str, target: &str,
    before_entry: &Option<EntryRecord>, after_entry: &Option<EntryRecord>,
    before_children: &Vec<EntryRecord>, after_children: &Vec<EntryRecord>) -> (r: Result<InspectReport, WhyBigError>)
    requires
        before_children@.len() + after_children@.len() <= i64::MAX,
    ensures
        !under(lexical_text(target@), root@) ==> (r is Err && (r->Err_0 matches WhyBigError::PathOutsideRoot { path, root: rt }
            && path@ == lexical_text(target@) && rt@ == root@)),
        under(lexical_text(target@), root@) && before_entry is None && after_entry is None ==>
            (r is Err && (r->Err_0 matches WhyBigError::PathNotInSnapshots(p) && p@ == lexical_text(target@))),
        under(lexical_text(target@), root@) && (before_entry is Some || after_entry is Some) ==> ({
            let rep = r->Ok_0;
            &&& r is Ok
            &&& rep.target@ == lexical_text(target@)
            &&& rep.root@ == root@
            &&& rep.before == *before
            &&& rep.after == *after
            &&& rep.target_before == entry_size(*before_entry)
            &&& rep.target_after == entry_size(*after_entry)
            &&& rep.target_delta == entry_size(*after_entry) - entry_size(*before_entry)
            &&& merge_spec(rep.contributors@, before_children@, after_children@,
                    if after_entry is Some { after_entry->0.path@ } else { before_entry->0.path@ })
            &&& rep.other == rep.target_delta - delta_sum(rep.contributors@, rep.contributors@.len() as int)
        }),
{
    let t = match inspect_target(root, target) {
        Ok(t) => t,
        Err(e) => { return Err(e); },
    };
    let scope = match inspect_scope(t.as_str(), before_entry, after_entry) {
        Ok(s) => s,
        Err(e) => { return Err(e); },
    };
    let target_before: u64 = match before_entry { Some(e) => e.size, None => 0 };
    let target_after: u64 = match after_entry { Some(e) => e.size, None => 0 };
    let target_delta = signed_delta(target_before, target_after);
    let contributors = merge_children_deltas(before_children, after_children, scope.as_str());
    let mut sum: i128 = 0;
    let mut i: usize = 0;
    while i < contributors.len()
        invariant
            i <= contributors.len(),
            contributors@.len() <= i64::MAX,
            merge_spec(contributors@, before_children@, after_children@, scope@),
            sum == delta_sum(contributors@, i as int),
            -(i * (u64::MAX as int)) <= sum <= i * (u64::MAX as int),
        decreases contributors.len() - i,
    {
        let d = contributors[i].delta;
        assert(crate::diff::entry_matches(contributors@[i as int], before_children@, after_children@));
        assert(-(u64::MAX as int) <= d <= u64::MAX);
        assert((i + 1) * (u64::MAX as int) == i * (u64::MAX as int) + u64::MAX) by (nonlinear_arith);
        assert(i * (u64::MAX as int) <= (i64::MAX as int) * (u64::MAX as int)) by (nonlinear_arith)
            requires i <= i64::MAX;
        sum = sum + d;
        i = i + 1;
    }
    assert(i * (u64::MAX as int) <= (i64::MAX as int) * (u64::MAX as int)) by (nonlinear_arith)
        requires i <= i64::MAX;
    let other = target_delta - sum;
    Ok(InspectReport {
        target: t,
        root: root.to_string(),
        before: before.copied(),
        after: after.copied(),
        target_before,
        target_after,
        target_delta,
        contributors,
        other,
    })
}

} // verus!
