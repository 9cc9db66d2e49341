//! Retention planner tests. `now` is injected so bucket edges are exact.
//! Snapshot lists are what the database lists (ids ascending).

use chrono::{TimeZone, Utc};
use diskdrift::retention::{build_plan, PruneExecutor, PrunePlan, RetentionPolicy, RootPrunePlan};
use diskdrift::storage::models::SnapshotRecord;

const NOW: i64 = 1_768_032_000_000; // 2026-01-10T00:00:00Z

fn dt(y: i32, m: u32, d: u32, h: u32, min: u32) -> i64 {
    Utc.with_ymd_and_hms(y, m, d, h, min, 0)
        .unwrap()
        .timestamp_millis()
}

fn day_ms() -> i64 {
    86_400_000
}

struct Store {
    snaps: Vec<SnapshotRecord>,
}

impl Store {
    fn new() -> Self {
        Store { snaps: Vec::new() }
    }

    fn add(&mut self, root: &str, created_ms: i64) -> i64 {
        let id = self.snaps.len() as i64 + 1;
        self.snaps.push(SnapshotRecord {
            id,
            created_at_ms: created_ms,
            root_path: root.to_string(),
            total_size: 0,
            file_count: 0,
            dir_count: 0,
            scan_duration_ms: 1,
            skipped_count: 0,
            size_kind: "apparent".to_string(),
        });
        id
    }

    fn plan(&self, policy: RetentionPolicy) -> PrunePlan {
        build_plan(&policy, &self.snaps, NOW).unwrap()
    }
}

#[test]
fn recent_snapshots_are_all_kept() {
    let mut st = Store::new();
    st.add("R", NOW - day_ms());
    st.add("R", NOW - 6 * day_ms());
    st.add("R", NOW - day_ms() / 2);

    let plan = st.plan(RetentionPolicy::default());
    assert_eq!(plan.total_remove(), 0);
    assert_eq!(plan.total_keep(), 3);
}

#[test]
fn daily_bucketing_keeps_one_per_day() {
    let mut st = Store::new();
    let d8 = NOW - 8 * day_ms();
    st.add("R", d8); // latest of its day -> kept
    st.add("R", d8 - 30 * 60_000); // older same day -> removed
    st.add("R", d8 - 2 * day_ms()); // previous day -> kept

    let plan = st.plan(RetentionPolicy::default());
    let root = &plan.roots[0];
    assert_eq!(root.keep_daily.len(), 2, "one per day");
    assert_eq!(root.remove.len(), 1, "the older same-day snapshot");
}

#[test]
fn weekly_bucketing_keeps_one_per_seven_days() {
    let mut st = Store::new();
    let d40 = NOW - 40 * day_ms();
    st.add("R", d40);
    st.add("R", d40 + day_ms()); // same week -> older removed
    st.add("R", d40 + 8 * day_ms()); // different week -> kept

    let plan = st.plan(RetentionPolicy::default());
    let root = &plan.roots[0];
    assert_eq!(root.keep_weekly.len(), 2);
    assert_eq!(root.remove.len(), 1);
}

#[test]
fn older_than_365_days_removed() {
    let mut st = Store::new();
    st.add("R", NOW - 400 * day_ms());
    st.add("R", NOW - 366 * day_ms());
    st.add("R", NOW - 370 * day_ms());
    st.add("R", NOW - day_ms()); // recent

    let plan = st.plan(RetentionPolicy::default());
    let root = &plan.roots[0];
    assert_eq!(root.remove.len(), 3, "all beyond the weekly window");
    assert!(root.keep_recent.contains(&4));
}

#[test]
fn latest_snapshot_always_kept_even_when_very_old() {
    let mut st = Store::new();
    let old_a = st.add("R", NOW - 400 * day_ms());
    let latest = st.add("R", NOW - 399 * day_ms());

    let plan = st.plan(RetentionPolicy::default());
    let root = &plan.roots[0];
    assert_eq!(root.remove, vec![old_a]);
    assert!(root.keep_ids().contains(&latest));
    assert!(!root.keep_ids().contains(&old_a));
}

#[test]
fn single_snapshot_root_is_never_pruned() {
    let mut st = Store::new();
    let _id = st.add("R", NOW - 500 * day_ms());

    let plan = st.plan(RetentionPolicy::default());
    let root = &plan.roots[0];
    assert!(root.remove.is_empty());
    assert_eq!(root.keep(), 1);
    assert_eq!(plan.total_remove(), 0);
}

#[test]
fn retention_multiple_roots_are_isolated() {
    let mut st = Store::new();
    let d8 = NOW - 8 * day_ms();
    st.add("R1", NOW - day_ms());
    st.add("R2", d8);
    st.add("R2", d8 - 30 * 60_000);

    let plan = st.plan(RetentionPolicy::default());
    assert_eq!(plan.roots.len(), 2);
    let r1 = plan.roots.iter().find(|r| r.root == "R1").unwrap();
    let r2 = plan.roots.iter().find(|r| r.root == "R2").unwrap();
    assert_eq!(r1.remove.len(), 0, "single-snapshot root untouched");
    assert_eq!(
        r2.remove.len(),
        1,
        "R2 loses only its older same-day snapshot"
    );
}

#[test]
fn dry_run_does_not_mutate() {
    let mut st = Store::new();
    st.add("R", NOW - 400 * day_ms());
    st.add("R", NOW - day_ms());

    let before = st.snaps.len();
    let plan = st.plan(RetentionPolicy::default());
    assert!(plan.total_remove() > 0);
    assert_eq!(st.snaps.len(), before, "planning must not write");
    assert_eq!(plan.total_keep() + plan.total_remove(), before);
}

#[test]
fn year_and_week_boundaries_are_stable() {
    let mut st = Store::new();
    let dec31 = dt(2025, 12, 31, 23, 59);
    let jan1 = dt(2026, 1, 1, 0, 1);
    let jan2 = dt(2026, 1, 2, 0, 1);
    st.add("R", dec31);
    st.add("R", jan1);
    st.add("R", jan2);
    st.add("R", NOW); // latest, recent

    let plan = st.plan(RetentionPolicy::default());
    let total: usize = plan
        .roots
        .iter()
        .map(|r| r.keep_daily.len() + r.keep_weekly.len() + r.keep_recent.len())
        .sum();
    assert_eq!(total, 4, "each remains in its own bucket / recent");
    assert_eq!(plan.total_remove() + plan.total_keep(), 4);
}

#[test]
fn future_timestamp_is_kept_not_crashed() {
    let mut st = Store::new();
    st.add("R", NOW + 2 * day_ms()); // in the future
    st.add("R", NOW);

    let plan = st.plan(RetentionPolicy::default());
    assert_eq!(plan.total_remove(), 0, "future snapshot treated as recent");
    assert_eq!(plan.total_keep(), 2);
}

#[test]
fn invalid_policy_is_rejected() {
    let mut st = Store::new();
    st.add("R", NOW);
    let bad = RetentionPolicy {
        recent_days: 30,
        daily_days: 7,
        weekly_days: 365,
    };
    let err = build_plan(&bad, &st.snaps, NOW).unwrap_err();
    assert!(err.message().contains("retention policy"));
    assert_eq!(
        err.message(),
        "invalid retention policy: recent_days=30 daily_days=7 weekly_days=365 (need 1 <= recent < daily < weekly)"
    );
}

#[test]
fn executor_refuses_to_delete_a_root_latest() {
    let mut st = Store::new();
    let solo = st.add("R", NOW);
    // A corrupt plan that removes the only (latest) snapshot.
    let plan = PrunePlan {
        generated_at_ms: NOW,
        policy: RetentionPolicy::default(),
        roots: vec![RootPrunePlan {
            root: "R".to_string(),
            snapshot_count: 1,
            keep_recent: vec![],
            keep_daily: vec![],
            keep_weekly: vec![solo],
            remove: vec![solo],
        }],
    };
    let err = PruneExecutor::checked_removals(&plan, &st.snaps).unwrap_err();
    assert!(err.message().contains("refusing"));
    assert_eq!(st.snaps.len(), 1);
}

#[test]
fn executor_accepts_a_planned_prune() {
    let mut st = Store::new();
    let doomed = st.add("R", NOW - 400 * day_ms());
    st.add("R", NOW - day_ms());
    let plan = st.plan(RetentionPolicy::default());
    assert_eq!(PruneExecutor::checked_removals(&plan, &st.snaps).unwrap(), vec![doomed]);
}

#[test]
fn pre_epoch_snapshots_bucket_by_floor_days() {
    // Two snapshots on the same UTC day before 1970 share a daily bucket.
    let now = 10 * day_ms();
    let day_minus_1 = -day_ms() + 1000;
    let mut st = Store::new();
    st.add("R", day_minus_1);
    st.add("R", day_minus_1 + 3600_000);
    st.add("R", now);
    let plan = build_plan(&RetentionPolicy::default(), &st.snaps, now).unwrap();
    let root = &plan.roots[0];
    assert_eq!(root.keep_daily, vec![2]);
    assert_eq!(root.remove, vec![1]);
}

#[test]
fn plan_lists_roots_in_string_order_and_sorts_ids() {
    let mut st = Store::new();
    st.add("b", NOW);
    st.add("a", NOW - day_ms());
    st.add("a", NOW);
    let plan = st.plan(RetentionPolicy::default());
    let names: Vec<&str> = plan.roots.iter().map(|r| r.root.as_str()).collect();
    assert_eq!(names, vec!["a", "b"]);
    assert_eq!(plan.roots[0].keep_recent, vec![2, 3]);
    assert_eq!(plan.roots[0].snapshot_count, 2);
    assert_eq!(plan.total_snapshots(), 3);
    assert_eq!(plan.keep_ids(), vec![1, 2, 3]);
    assert!(plan.remove_ids().is_empty());
}

#[test]
fn prune_preview_says_nothing_was_deleted() {
    let text = diskdrift::output::prune::render_prune_labeled(5, 3, 2, &Some("2026-01-01 00:00:00".to_string()), 2048, false);
    assert_eq!(
        text,
        "Snapshots: 5\nKeep:      3\nRemove:    2\nOldest removed: 2026-01-01 00:00:00\nDatabase:  2.0 KB\nNo data has been deleted.\nRun `diskdrift prune --apply` to apply this retention policy.\n"
    );
    let applied = diskdrift::output::prune::render_prune(5, 3, 2, None, None, 100, true);
    assert!(applied.starts_with("Snapshots: 5\n"));
    assert!(applied.contains("Removed 2 snapshots."));
    assert!(!applied.contains("Oldest removed"));
}

#[test]
fn repeated_apply_is_idempotent() {
    let mut st = Store::new();
    st.add("R", NOW - 400 * day_ms());
    st.add("R", NOW - day_ms());

    let plan = st.plan(RetentionPolicy::default());
    let first = PruneExecutor::checked_removals(&plan, &st.snaps).unwrap();
    assert_eq!(first.len(), 1);
    st.snaps.retain(|s| !first.contains(&s.id));

    let second = PruneExecutor::checked_removals(&plan, &st.snaps).unwrap();
    let still_there = second.iter().filter(|id| st.snaps.iter().any(|s| s.id == **id)).count();
    assert_eq!(still_there, 0, "already gone, nothing to do");
    assert_eq!(st.snaps.len(), 1);
}

#[test]
fn keep_and_remove_cover_every_snapshot_once_across_roots() {
    let mut st = Store::new();
    for d in 0..40 {
        st.add("/a", NOW - d * day_ms());
        st.add("/b", NOW - d * day_ms() - 3_600_000);
    }
    st.add("/c", NOW - 400 * day_ms());
    let plan = build_plan(&RetentionPolicy::default(), &st.snaps, NOW).unwrap();
    let keep = plan.keep_ids();
    let remove = plan.remove_ids();
    assert!(keep.iter().all(|id| !remove.contains(id)));
    assert_eq!(keep.len() + remove.len(), st.snaps.len());
    assert_eq!(plan.total_keep() + plan.total_remove(), plan.total_snapshots());
    assert!(keep.contains(&81));
}

#[test]
fn a_root_with_one_old_snapshot_keeps_it() {
    let mut st = Store::new();
    st.add("/only", NOW - 900 * day_ms());
    let plan = build_plan(&RetentionPolicy::default(), &st.snaps, NOW).unwrap();
    assert_eq!(plan.roots[0].remove, Vec::<i64>::new());
    assert_eq!(plan.roots[0].keep(), 1);
    assert_eq!(plan.roots[0].keep_recent, vec![1]);
    assert!(plan.remove_ids().is_empty());
}
