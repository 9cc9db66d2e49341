//! Stable, versioned JSON documents (`--json`).
//!
//! These are **independent public structs**: internal domain structs are
//! never serialized directly, so the schema cannot drift with refactors.
//! Conventions:
//! - every document carries `"schema_version": 1` and `"command"`;
//! - timestamps are RFC 3339 **UTC** (no timezone ambiguity);
//! - all sizes / deltas are integer **bytes** (never "11.8 GB");
//! - `state` is lowercase `added|removed|changed`.
//!
//! The program serializes these documents; this module builds them.
use vstd::prelude::*;
use crate::scanner::elapsed::u64_modulus;
use crate::diff::{DiffEntry, DiffState, SinceInfo, SnapshotDiff};
use crate::history::{HistoryPoint, HistoryReport};
use crate::inspect::InspectReport;
use crate::retention::{plan_keep_set, plan_remove_set, root_keep_set, PrunePlan, RootPrunePlan};
use crate::scanner::{ScanWarning, WarningKind};
use crate::snapshot::service::{SnapshotOutcome, StatusReport};
use crate::storage::models::{to_u64_clamp, SnapshotRecord};
use crate::top::{TopMode, TopReport};

verus! {

/// Lowercase membership state of a diff entry.
#[derive(Debug, Clone, Copy, PartialEq, Eq, Structural)]
pub enum JsonStateV1 {
    Added,
    Removed,
    Changed,
}

/// Reference to one snapshot (used in before/after pairs everywhere).
#[derive(Debug, Clone, PartialEq, Eq)]
pub struct JsonSnapshotRefV1 {
    pub snapshot_id: i64,
    /// RFC 3339 UTC.
    pub created_at: String,
    pub size_bytes: u64,
}

/// `--since` selection info (present only when the pair was chosen by it).
#[derive(Debug, Clone, PartialEq, Eq)]
pub struct JsonSinceV1 {
    pub requested_seconds: i64,
    /// RFC 3339 UTC ideal window start.
    pub requested_target: String,
    /// RFC 3339 UTC of the snapshot actually used as `before`.
    pub effective_before: String,
    pub used_earliest: bool,
}

/// One non-fatal scan problem in `snapshot --json`.
#[derive(Debug, Clone, PartialEq, Eq)]
pub struct JsonWarningV1 {
    pub path: String,
    pub error: String,
    /// Lowercase kind: `stat_failed` | `unreadable_dir` | `entry_read_failed`.
    pub kind: String,
}

/// One directory's change between two snapshots.
#[derive(Debug, Clone, PartialEq, Eq)]
pub struct JsonDeltaEntryV1 {
    pub path: String,
    pub before_size_bytes: u64,
    pub after_size_bytes: u64,
    pub delta_bytes: i128,
    pub state: JsonStateV1,
}

/// `diff --json`
#[derive(Debug, Clone, PartialEq, Eq)]
pub struct JsonDiffReportV1 {
    pub schema_version: u8,
    pub command: String,
    pub root: String,
    pub before: JsonSnapshotRefV1,
    pub after: JsonSnapshotRefV1,
    pub total_before_bytes: u64,
    pub total_after_bytes: u64,
    pub delta_bytes: i128,
    pub grew: Vec<JsonDeltaEntryV1>,
    pub shrank: Vec<JsonDeltaEntryV1>,
    /// Omitted from the document when absent.
    pub since: Option<JsonSinceV1>,
}

/// `inspect <path> --json`
#[derive(Debug, Clone, PartialEq, Eq)]
pub struct JsonInspectReportV1 {
    pub schema_version: u8,
    pub command: String,
    pub root: String,
    pub path: String,
    pub before: JsonSnapshotRefV1,
    pub after: JsonSnapshotRefV1,
    pub target_before_bytes: u64,
    pub target_after_bytes: u64,
    pub target_delta_bytes: i128,
    pub other_bytes: i128,
    pub contributors: Vec<JsonDeltaEntryV1>,
}

/// One point of `history --json`.
#[derive(Debug, Clone, PartialEq, Eq)]
pub struct JsonHistoryPointV1 {
    pub snapshot_id: i64,
    pub created_at: String,
    pub size_bytes: u64,
    /// `null` for the first point.
    pub delta_from_previous_bytes: Option<i128>,
}

/// `history --json`
#[derive(Debug, Clone, PartialEq, Eq)]
pub struct JsonHistoryReportV1 {
    pub schema_version: u8,
    pub command: String,
    pub root: String,
    pub path: String,
    pub points: Vec<JsonHistoryPointV1>,
    pub total_delta_bytes: i128,
}

/// `top --json` (mode is "grew" or "shrank").
#[derive(Debug, Clone, PartialEq, Eq)]
pub struct JsonTopReportV1 {
    pub schema_version: u8,
    pub command: String,
    pub root: String,
    pub path: String,
    pub mode: String,
    pub before: JsonSnapshotRefV1,
    pub after: JsonSnapshotRefV1,
    pub entries: Vec<JsonDeltaEntryV1>,
    /// Omitted from the document when absent.
    pub since: Option<JsonSinceV1>,
}

/// `status --json`
#[derive(Debug, Clone, PartialEq, Eq)]
pub struct JsonStatusReportV1 {
    pub schema_version: u8,
    pub command: String,
    pub initialized: bool,
    pub data_dir: String,
    pub database_path: String,
    pub database_size_bytes: u64,
    pub snapshot_count: i64,
    pub earliest: Option<JsonSnapshotRefV1>,
    pub latest: Option<JsonSnapshotRefV1>,
}

/// `snapshot <path> --json`
#[derive(Debug, Clone, PartialEq, Eq)]
pub struct JsonSnapshotReportV1 {
    pub schema_version: u8,
    pub command: String,
    pub snapshot_id: i64,
    /// RFC 3339 UTC.
    pub created_at: String,
    pub root: String,
    pub size_kind: String,
    pub total_size_bytes: u64,
    pub file_count: u64,
    pub dir_count: u64,
    pub scan_duration_ms: u64,
    pub skipped_count: u64,
    pub warnings: Vec<JsonWarningV1>,
}

/// Per-root entry of `prune --json`.
#[derive(Debug, Clone, PartialEq, Eq)]
pub struct JsonPruneRootV1 {
    pub root: String,
    pub snapshot_count: usize,
    pub keep: Vec<i64>,
    pub remove: Vec<i64>,
}

/// The retention policy inside `prune --json`.
#[derive(Debug, Clone, Copy, PartialEq, Eq)]
pub struct JsonRetentionPolicyV1 {
    pub recent_days: u32,
    pub daily_days: u32,
    pub weekly_days: u32,
}

/// `prune --json` / `prune --apply --json`
#[derive(Debug, Clone, PartialEq)]
pub struct JsonPruneReportV1 {
    pub schema_version: u8,
    pub command: String,
    pub applied: bool,
    pub policy: JsonRetentionPolicyV1,
    pub snapshots_before: i64,
    pub snapshots_keep: i64,
    pub snapshots_remove: i64,
    /// RFC 3339 UTC of the oldest snapshot that would be / was removed.
    pub oldest_removed: Option<String>,
    pub database_size_bytes: u64,
    pub roots: Vec<JsonPruneRootV1>,
}

/// chrono's RFC 3339 rendering of UTC epoch milliseconds (`None` outside
/// chrono's representable range).
pub uninterp spec fn chrono_rfc3339(ms: i64) -> Option<Seq<char>>;

/// Calls chrono's `DateTime::<Utc>::from_timestamp_millis` and, when it
/// gives a date, `DateTime::to_rfc3339`. Claimed: the text is a function of
/// `ms` alone (UTC, no locale), named [`chrono_rfc3339`].
#[verifier::external_body]
fn utc_rfc3339(ms: i64) -> (r: Option<String>)
    ensures
        match r {
            Some(s) => chrono_rfc3339(ms) == Some(s@),
            None => chrono_rfc3339(ms) is None,
        },
{
    match chrono::DateTime::<chrono::Utc>::from_timestamp_millis(ms) {
        Some(dt) => Some(dt.to_rfc3339()),
        None => None,
    }
}

/// The text stored for a timestamp: chrono's rendering, or the epoch when
/// chrono cannot represent it.
pub open spec fn rfc3339_text(ms: i64) -> Seq<char> {
    match chrono_rfc3339(ms) {
        Some(s) => s,
        None => "1970-01-01T00:00:00Z"@,
    }
}

/// A rendered timestamp, or the epoch for an unrepresentable one.
pub fn rfc3339_or_epoch(rendered: Option<String>) -> (s: String)
    ensures
        s@ == (match rendered { Some(t) => t@, None => "1970-01-01T00:00:00Z"@ }),
{
    match rendered {
        Some(t) => t,
        None => "1970-01-01T00:00:00Z".to_string(),
    }
}

/// RFC 3339 UTC text of epoch milliseconds.
pub fn rfc3339_utc(ms: i64) -> (s: String)
    ensures
        s@ == rfc3339_text(ms),
{
    rfc3339_or_epoch(utc_rfc3339(ms))
}

/// `r` refers to snapshot `id` taken at `ms` with `size` bytes.
pub open spec fn is_ref(r: JsonSnapshotRefV1, id: i64, ms: i64, size: u64) -> bool {
    r.snapshot_id == id && r.created_at@ == rfc3339_text(ms) && r.size_bytes == size
}

fn snapshot_ref(id: i64, created_at_ms: i64, size_bytes: u64) -> (r: JsonSnapshotRefV1)
    ensures
        is_ref(r, id, created_at_ms, size_bytes),
{
    JsonSnapshotRefV1 { snapshot_id: id, created_at: rfc3339_utc(created_at_ms), size_bytes }
}

/// The JSON state of a diff state.
pub open spec fn json_state(s: DiffState) -> JsonStateV1 {
    match s {
        DiffState::Added => JsonStateV1::Added,
        DiffState::Removed => JsonStateV1::Removed,
        DiffState::Changed => JsonStateV1::Changed,
    }
}

fn state_of(s: DiffState) -> (j: JsonStateV1)
    ensures
        j == json_state(s),
{
    match s {
        DiffState::Added => JsonStateV1::Added,
        DiffState::Removed => JsonStateV1::Removed,
        DiffState::Changed => JsonStateV1::Changed,
    }
}

/// The JSON row of a diff entry.
pub open spec fn json_entry(e: DiffEntry) -> JsonDeltaEntryV1 {
    JsonDeltaEntryV1 {
        path: e.path,
        before_size_bytes: e.before_size,
        after_size_bytes: e.after_size,
        delta_bytes: e.delta,
        state: json_state(e.state),
    }
}

fn entries_of(v: &Vec<DiffEntry>) -> (r: Vec<JsonDeltaEntryV1>)
    ensures
        r@ == v@.map_values(|e: DiffEntry| json_entry(e)),
{
    let mut r: Vec<JsonDeltaEntryV1> = Vec::new();
    let mut i: usize = 0;
    while i < v.len()
        invariant
            i <= v.len(),
            r@ == v@.take(i as int).map_values(|e: DiffEntry| json_entry(e)),
        decreases v.len() - i,
    {
        let e = &v[i];
        r.push(JsonDeltaEntryV1 {
            path: e.path.clone(),
            before_size_bytes: e.before_size,
            after_size_bytes: e.after_size,
            delta_bytes: e.delta,
            state: state_of(e.state),
        });
        proof {
            assert(v@.take(i + 1) =~= v@.take(i as int).push(v@[i as int]));
        }
        i = i + 1;
    }
    assert(v@.take(v.len() as int) =~= v@);
    r
}

/// `j` is the JSON form of the `--since` record `s`.
pub open spec fn is_since(j: JsonSinceV1, s: SinceInfo) -> bool {
    &&& j.requested_seconds == s.requested_seconds
    &&& j.requested_target@ == rfc3339_text(s.requested_target_ms)
    &&& j.effective_before@ == rfc3339_text(s.effective_before_ms)
    &&& j.used_earliest == s.used_earliest
}

/// The optional `--since` record, converted.
pub open spec fn is_since_opt(j: Option<JsonSinceV1>, s: Option<SinceInfo>) -> bool {
    match (j, s) {
        (Some(a), Some(b)) => is_since(a, b),
        (None, None) => true,
        _ => false,
    }
}

fn since_of(s: Option<SinceInfo>) -> (j: Option<JsonSinceV1>)
    ensures
        is_since_opt(j, s),
{
    match s {
        Some(s) => Some(JsonSinceV1 {
            requested_seconds: s.requested_seconds,
            requested_target: rfc3339_utc(s.requested_target_ms),
            effective_before: rfc3339_utc(s.effective_before_ms),
            used_earliest: s.used_earliest,
        }),
        None => None,
    }
}

/// Lowercase name of a warning kind.
pub open spec fn kind_text(k: WarningKind) -> Seq<char> {
    match k {
        WarningKind::StatFailed => "stat_failed"@,
        WarningKind::UnreadableDir => "unreadable_dir"@,
        WarningKind::EntryReadFailed => "entry_read_failed"@,
    }
}

fn warning_kind_str(k: WarningKind) -> (s: &'static str)
    ensures
        s@ == kind_text(k),
{
    match k {
        WarningKind::StatFailed => "stat_failed",
        WarningKind::UnreadableDir => "unreadable_dir",
        WarningKind::EntryReadFailed => "entry_read_failed",
    }
}


impl JsonDiffReportV1 {
    /// The document for a diff.
    pub fn build(d: &SnapshotDiff) -> (r: Self)
        ensures
            r.schema_version == 1,
            r.command@ == "diff"@,
            r.root == d.root,
            is_ref(r.before, d.before.id, d.before.created_at_ms, d.total_before),
            is_ref(r.after, d.after.id, d.after.created_at_ms, d.total_after),
            r.total_before_bytes == d.total_before,
            r.total_after_bytes == d.total_after,
            r.delta_bytes == d.total_delta,
            r.grew@ == d.grew@.map_values(|e: DiffEntry| json_entry(e)),
            r.shrank@ == d.shrank@.map_values(|e: DiffEntry| json_entry(e)),
            is_since_opt(r.since, d.since),
    {
        JsonDiffReportV1 {
            schema_version: 1,
            command: "diff".to_string(),
            root: d.root.clone(),
            before: snapshot_ref(d.before.id, d.before.created_at_ms, d.total_before),
            after: snapshot_ref(d.after.id, d.after.created_at_ms, d.total_after),
            total_before_bytes: d.total_before,
            total_after_bytes: d.total_after,
            delta_bytes: d.total_delta,
            grew: entries_of(&d.grew),
            shrank: entries_of(&d.shrank),
            since: since_of(d.since),
        }
    }
}

impl JsonInspectReportV1 {
    /// The document for an inspect report.
    pub fn build(r: &InspectReport) -> (j: Self)
        ensures
            j.schema_version == 1,
            j.command@ == "inspect"@,
            j.root == r.root,
            j.path == r.target,
            is_ref(j.before, r.before.id, r.before.created_at_ms, r.target_before),
            is_ref(j.after, r.after.id, r.after.created_at_ms, r.target_after),
            j.target_before_bytes == r.target_before,
            j.target_after_bytes == r.target_after,
            j.target_delta_bytes == r.target_delta,
            j.other_bytes == r.other,
            j.contributors@ == r.contributors@.map_values(|e: DiffEntry| json_entry(e)),
    {
        JsonInspectReportV1 {
            schema_version: 1,
            command: "inspect".to_string(),
            root: r.root.clone(),
            path: r.target.clone(),
            before: snapshot_ref(r.before.id, r.before.created_at_ms, r.target_before),
            after: snapshot_ref(r.after.id, r.after.created_at_ms, r.target_after),
            target_before_bytes: r.target_before,
            target_after_bytes: r.target_after,
            target_delta_bytes: r.target_delta,
            other_bytes: r.other,
            contributors: entries_of(&r.contributors),
        }
    }
}

/// `j` is the JSON form of history point `p`.
pub open spec fn is_point(j: JsonHistoryPointV1, p: HistoryPoint) -> bool {
    &&& j.snapshot_id == p.snapshot_id
    &&& j.created_at@ == rfc3339_text(p.created_at_ms)
    &&& j.size_bytes == p.size
    &&& j.delta_from_previous_bytes == p.delta_from_previous
}

impl JsonHistoryReportV1 {
    /// The document for a history timeline.
    pub fn build(r: &HistoryReport) -> (j: Self)
        ensures
            j.schema_version == 1,
            j.command@ == "history"@,
            j.root == r.root,
            j.path == r.target,
            j.points@.len() == r.points@.len(),
            forall|i: int| 0 <= i < r.points@.len() ==> is_point(#[trigger] j.points@[i], r.points@[i]),
            j.total_delta_bytes == r.total_delta,
    {
        let mut points: Vec<JsonHistoryPointV1> = Vec::new();
        let mut i: usize = 0;
        while i < r.points.len()
            invariant
                i <= r.points.len(),
                points@.len() == i,
                forall|k: int| 0 <= k < i ==> is_point(#[trigger] points@[k], r.points@[k]),
            decreases r.points.len() - i,
        {
            let p = &r.points[i];
            points.push(JsonHistoryPointV1 {
                snapshot_id: p.snapshot_id,
                created_at: rfc3339_utc(p.created_at_ms),
                size_bytes: p.size,
                delta_from_previous_bytes: p.delta_from_previous,
            });
            i = i + 1;
        }
        JsonHistoryReportV1 {
            schema_version: 1,
            command: "history".to_string(),
            root: r.root.clone(),
            path: r.target.clone(),
            points,
            total_delta_bytes: r.total_delta,
        }
    }
}

impl JsonTopReportV1 {
    /// The document for a top ranking.
    pub fn build(r: &TopReport) -> (j: Self)
        ensures
            j.schema_version == 1,
            j.command@ == "top"@,
            j.root == r.root,
            j.path == r.scope,
            j.mode@ == (if r.mode == TopMode::Growth { "grew"@ } else { "shrank"@ }),
            is_ref(j.before, r.before.id, r.before.created_at_ms, to_u64_clamp(r.before.total_size as int) as u64),
            is_ref(j.after, r.after.id, r.after.created_at_ms, to_u64_clamp(r.after.total_size as int) as u64),
            j.entries@ == r.entries@.map_values(|e: DiffEntry| json_entry(e)),
            is_since_opt(j.since, r.since),
    {
        let mode = match r.mode {
            TopMode::Growth => "grew",
            TopMode::Shrink => "shrank",
        };
        JsonTopReportV1 {
            schema_version: 1,
            command: "top".to_string(),
            root: r.root.clone(),
            path: r.scope.clone(),
            mode: mode.to_string(),
            before: snapshot_ref(r.before.id, r.before.created_at_ms, r.before.total_size_u64()),
            after: snapshot_ref(r.after.id, r.after.created_at_ms, r.after.total_size_u64()),
            entries: entries_of(&r.entries),
            since: since_of(r.since),
        }
    }
}

/// The optional snapshot, as a JSON reference (its own total as size).
pub open spec fn is_ref_opt(j: Option<JsonSnapshotRefV1>, s: Option<SnapshotRecord>) -> bool {
    match (j, s) {
        (Some(a), Some(b)) => is_ref(a, b.id, b.created_at_ms, to_u64_clamp(b.total_size as int) as u64),
        (None, None) => true,
        _ => false,
    }
}

fn ref_of(s: &Option<SnapshotRecord>) -> (j: Option<JsonSnapshotRefV1>)
    ensures
        is_ref_opt(j, *s),
{
    match s {
        Some(e) => Some(snapshot_ref(e.id, e.created_at_ms, e.total_size_u64())),
        None => None,
    }
}

impl JsonStatusReportV1 {
    /// The document for a status report.
    pub fn build(r: &StatusReport) -> (j: Self)
        ensures
            j.schema_version == 1,
            j.command@ == "status"@,
            j.initialized == r.initialized,
            j.data_dir == r.data_dir,
            j.database_path == r.db_path,
            j.database_size_bytes == r.db_size,
            j.snapshot_count == r.snapshot_count,
            is_ref_opt(j.earliest, r.earliest),
            is_ref_opt(j.latest, r.latest),
    {
        JsonStatusReportV1 {
            schema_version: 1,
            command: "status".to_string(),
            initialized: r.initialized,
            data_dir: r.data_dir.clone(),
            database_path: r.db_path.clone(),
            database_size_bytes: r.db_size,
            snapshot_count: r.snapshot_count,
            earliest: ref_of(&r.earliest),
            latest: ref_of(&r.latest),
        }
    }
}

/// `j` is the JSON form of scan warning `w`.
pub open spec fn is_warning(j: JsonWarningV1, w: ScanWarning) -> bool {
    j.path == w.path && j.error == w.error && j.kind@ == kind_text(w.kind)
}

impl JsonSnapshotReportV1 {
    /// The document for a completed snapshot. `scan_duration_ms` is the
    /// elapsed time's whole milliseconds, truncated to `u64`.
    pub fn build(o: &SnapshotOutcome) -> (j: Self)
        ensures
            j.schema_version == 1,
            j.command@ == "snapshot"@,
            j.snapshot_id == o.snapshot_id,
            j.created_at@ == rfc3339_text(o.created_at_ms),
            j.root == o.root_path,
            j.size_kind@ == "apparent"@,
            j.total_size_bytes == o.total_size,
            j.file_count == o.file_count,
            j.dir_count == o.dir_count,
            j.skipped_count == o.skipped_count,
            j.scan_duration_ms == (o.elapsed@.0 * 1000 + o.elapsed@.1 / 1_000_000) % u64_modulus(),
            j.warnings@.len() == o.warnings@.len(),
            forall|i: int| 0 <= i < o.warnings@.len() ==> is_warning(#[trigger] j.warnings@[i], o.warnings@[i]),
    {
        let mut warnings: Vec<JsonWarningV1> = Vec::new();
        let mut i: usize = 0;
        while i < o.warnings.len()
            invariant
                i <= o.warnings.len(),
                warnings@.len() == i,
                forall|k: int| 0 <= k < i ==> is_warning(#[trigger] warnings@[k], o.warnings@[k]),
            decreases o.warnings.len() - i,
        {
            let w = &o.warnings[i];
            warnings.push(JsonWarningV1 {
                path: w.path.clone(),
                error: w.error.clone(),
                kind: warning_kind_str(w.kind).to_string(),
            });
            i = i + 1;
        }
        let ms = o.elapsed.millis_u64();
        JsonSnapshotReportV1 {
            schema_version: 1,
            command: "snapshot".to_string(),
            snapshot_id: o.snapshot_id,
            created_at: rfc3339_utc(o.created_at_ms),
            root: o.root_path.clone(),
            size_kind: "apparent".to_string(),
            total_size_bytes: o.total_size,
            file_count: o.file_count,
            dir_count: o.dir_count,
            scan_duration_ms: ms,
            skipped_count: o.skipped_count,
            warnings,
        }
    }
}

/// `j` is the JSON form of the per-root plan `rp`.
pub open spec fn is_prune_root(j: JsonPruneRootV1, rp: RootPrunePlan) -> bool {
    &&& j.root == rp.root
    &&& j.snapshot_count == rp.snapshot_count
    &&& crate::order::strictly_sorted_i64(j.keep@)
    &&& j.keep@.to_set() == root_keep_set(rp)
    &&& j.remove@ == rp.remove@
}

impl JsonPruneReportV1 {
    /// The document for a prune plan. `oldest_removed_ms` is `None` when
    /// nothing would be removed.
    pub fn build(plan: &PrunePlan, applied: bool, snapshots_before: i64, database_size_bytes: u64,
        oldest_removed_ms: Option<i64>) -> (j: Self)
        ensures
            j.schema_version == 1,
            j.command@ == "prune"@,
            j.applied == applied,
            j.policy == (JsonRetentionPolicyV1 {
                recent_days: plan.policy.recent_days,
                daily_days: plan.policy.daily_days,
                weekly_days: plan.policy.weekly_days,
            }),
            j.snapshots_before == snapshots_before,
            j.snapshots_keep == plan_keep_set(plan.roots@).len() as i64,
            j.snapshots_remove == plan_remove_set(plan.roots@).len() as i64,
            match oldest_removed_ms {
                Some(ms) => j.oldest_removed is Some && j.oldest_removed->0@ == rfc3339_text(ms),
                None => j.oldest_removed is None,
            },
            j.database_size_bytes == database_size_bytes,
            j.roots@.len() == plan.roots@.len(),
            forall|i: int| 0 <= i < plan.roots@.len() ==> is_prune_root(#[trigger] j.roots@[i], plan.roots@[i]),
    {
        let mut roots: Vec<JsonPruneRootV1> = Vec::new();
        let mut i: usize = 0;
        while i < plan.roots.len()
            invariant
                i <= plan.roots.len(),
                roots@.len() == i,
                forall|k: int| 0 <= k < i ==> is_prune_root(#[trigger] roots@[k], plan.roots@[k]),
            decreases plan.roots.len() - i,
        {
            let r = &plan.roots[i];
            roots.push(JsonPruneRootV1 {
                root: r.root.clone(),
                snapshot_count: r.snapshot_count,
                keep: r.keep_ids(),
                remove: r.remove.clone(),
            });
            i = i + 1;
        }
        let keep = plan.total_keep();
        let remove = plan.total_remove();
        JsonPruneReportV1 {
            schema_version: 1,
            command: "prune".to_string(),
            applied,
            policy: JsonRetentionPolicyV1 {
                recent_days: plan.policy.recent_days,
                daily_days: plan.policy.daily_days,
                weekly_days: plan.policy.weekly_days,
            },
            snapshots_before,
            snapshots_keep: keep as i64,
            snapshots_remove: remove as i64,
            oldest_removed: match oldest_removed_ms {
                Some(ms) => Some(rfc3339_utc(ms)),
                None => None,
            },
            database_size_bytes,
            roots,
        }
    }
}

/// Law: a JSON diff row carries the diff state under the same name:
/// added rows are `Added`, removed rows `Removed`, changed rows `Changed`.
pub proof fn law_json_state_names_the_diff_state(e: DiffEntry)
    ensures
        (json_entry(e).state == JsonStateV1::Added) == (e.state == DiffState::Added),
        (json_entry(e).state == JsonStateV1::Removed) == (e.state == DiffState::Removed),
        (json_entry(e).state == JsonStateV1::Changed) == (e.state == DiffState::Changed),
{
}

} // verus!
