//! History: how a directory (or the tracked root itself) has changed across
//! snapshots.
//!
//! The storage layer builds the whole series in one query (missing
//! directories read as 0), ascending by snapshot id so trends read
//! naturally; this module turns it into a timeline with per-step deltas.
use vstd::prelude::*;
use crate::diff::signed_delta;
use crate::error::WhyBigError;
use crate::pathutil::{is_under, normalize_target, target_text, under};
use crate::storage::models::{EntryRecord, SnapshotRecord};

verus! {

/// One point on the history timeline.
#[derive(Debug, Clone, PartialEq, Eq)]
pub struct HistoryPoint {
    pub snapshot_id: i64,
    /// Unix epoch milliseconds (UTC).
    pub created_at_ms: i64,
    /// Directory size in that snapshot (0 when the directory did not exist).
    pub size: u64,
    /// `size - previous.size`; `None` for the first point.
    pub delta_from_previous: Option<i128>,
}

/// The full history timeline for one directory.
#[derive(Debug, Clone)]
pub struct HistoryReport {
    pub root: String,
    pub target: String,
    pub points: Vec<HistoryPoint>,
    /// `last.size - first.size` (0 for an empty timeline).
    pub total_delta: i128,
}

/// The root of the most recent snapshot: the default selection for
/// history, diff, inspect and top alike.
pub fn latest_root(latest: &Option<SnapshotRecord>) -> (r: Result<String, WhyBigError>)
    ensures
        match *latest {
            Some(s) => r is Ok && r->Ok_0 == s.root_path,
            None => r == Err::<String, WhyBigError>(WhyBigError::NoSnapshots),
        },
{
    match latest {
        Some(s) => Ok(s.root_path.clone()),
        None => Err(WhyBigError::NoSnapshots),
    }
}

/// The point the timeline holds for series row `i`.
pub open spec fn point_of(series: Seq<(i64, i64, u64)>, i: int) -> HistoryPoint {
    HistoryPoint {
        snapshot_id: series[i].0,
        created_at_ms: series[i].1,
        size: series[i].2,
        delta_from_previous: if i == 0 { None } else { Some((series[i].2 - series[i - 1].2) as i128) },
    }
}

/// `last.size - first.size`, or 0 when there is no point.
pub open spec fn series_total(series: Seq<(i64, i64, u64)>) -> int {
    if series.len() == 0 { 0 } else { series[series.len() - 1].2 - series[0].2 }
}

/// The directory `history` reports on: the normalized target, or the root.
pub open spec fn history_target_text(root: Seq<char>, raw: Option<Seq<char>>, cwd: Option<Seq<char>>) -> Seq<char> {
    match raw {
        Some(t) => target_text(t, cwd),
        None => root,
    }
}

/// Resolve the directory to report on: `raw_target` (relative to `cwd`,
/// lexically normalized) or the root itself; it must lie under the root.
pub fn history_target(root: &str, raw_target: Option<&str>, cwd: Option<&str>) -> (r: Result<String, WhyBigError>)
    ensures
        ({
            let t = history_target_text(root@, match raw_target { Some(x) => Some(x@), None => None },
                match cwd { Some(c) => Some(c@), None => None });
            if under(t, root@) {
                r is Ok && r->Ok_0@ == t
            } else {
                &&& r is Err
                &&& (r->Err_0 matches WhyBigError::PathOutsideRoot { path, root: rt } && path@ == t && rt@ == root@)
            }
        }),
{
    let target = match raw_target {
        Some(t) => normalize_target(t, cwd),
        None => root.to_string(),
    };
    if !is_under(target.as_str(), root) {
        return Err(WhyBigError::PathOutsideRoot { path: target, root: root.to_string() });
    }
    Ok(target)
}

/// The path to look the series up by: the stored spelling of the target
/// in the latest snapshot when it is there (exact, else case-insensitive
/// lookup), else the target as given (its sizes then read 0).
pub fn stored_spelling(target: &str, found: &Option<EntryRecord>) -> (p: String)
    ensures
        p@ == (match *found { Some(e) => e.path@, None => target@ }),
{
    match found {
        Some(e) => e.path.clone(),
        None => target.to_string(),
    }
}

/// Build the timeline from the stored series `(snapshot_id, created_at_ms,
/// size)`, ascending by snapshot id.
pub fn history(root: &str, target: &str, series: &Vec<(i64, i64, u64)>) -> (r: HistoryReport)
    ensures
        r.root@ == root@,
        r.target@ == target@,
        r.points@.len() == series@.len(),
        forall|i: int| 0 <= i < series@.len() ==> r.points@[i] == point_of(series@, i),
        r.total_delta == series_total(series@),
{
    let mut points: Vec<HistoryPoint> = Vec::new();
    let mut i: usize = 0;
    while i < series.len()
        invariant
            i <= series.len(),
            points@.len() == i,
            forall|k: int| 0 <= k < i ==> points@[k] == point_of(series@, k),
        decreases series.len() - i,
    {
        let (id, created, size) = series[i];
        let delta = if i == 0 { None } else { Some(signed_delta(series[i - 1].2, size)) };
        points.push(HistoryPoint { snapshot_id: id, created_at_ms: created, size, delta_from_previous: delta });
        i = i + 1;
    }
    let total_delta = if series.len() == 0 { 0 } else { signed_delta(series[0].2, series[series.len() - 1].2) };
    HistoryReport { root: root.to_string(), target: target.to_string(), points, total_delta }
}

/// Sum of the per-step deltas of the first `n` points.
pub open spec fn step_sum(points: Seq<HistoryPoint>, n: int) -> int
    decreases n,
{
    if n <= 0 {
        0
    } else {
        step_sum(points, n - 1) + match points[n - 1].delta_from_previous {
            Some(d) => d as int,
            None => 0,
        }
    }
}

/// The total change of a timeline is the sum of its step-by-step changes:
/// the per-snapshot deltas telescope to `last - first`.
pub proof fn law_steps_sum_to_total(series: Seq<(i64, i64, u64)>, r: HistoryReport)
    requires
        r.points@.len() == series.len(),
        forall|i: int| 0 <= i < series.len() ==> r.points@[i] == point_of(series, i),
        r.total_delta == series_total(series),
    ensures
        step_sum(r.points@, r.points@.len() as int) == r.total_delta,
{
    let n = series.len() as int;
    if n > 0 {
        lemma_step_sum_prefix(series, r.points@, n);
    }
}

proof fn lemma_step_sum_prefix(series: Seq<(i64, i64, u64)>, points: Seq<HistoryPoint>, n: int)
    requires
        1 <= n <= series.len(),
        points.len() == series.len(),
        forall|i: int| 0 <= i < series.len() ==> points[i] == point_of(series, i),
    ensures
        step_sum(points, n) == series[n - 1].2 - series[0].2,
    decreases n,
{
    if n > 1 {
        lemma_step_sum_prefix(series, points, n - 1);
        assert(points[n - 1] == point_of(series, n - 1));
    } else {
        assert(points[0] == point_of(series, 0));
        assert(step_sum(points, 0) == 0);
    }
}

} // verus!
