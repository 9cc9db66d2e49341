//! Snapshot retention: plan-then-apply pruning of the tool's OWN history.
//!
//! The planner is a pure function producing a [`PrunePlan`]; only the
//! executor (outside this crate's verified core, where the database lives)
//! mutates anything, after [`check_prune_safety`] accepted the plan.
//! Retention never deletes user files — only snapshot rows.
//!
//! Buckets are UTC: daily = epoch day, weekly = epoch day / 7 (a documented
//! 7-day bucket, deliberately not ISO week).
use vstd::prelude::*;
use crate::error::WhyBigError;
use crate::order::{sort_dedup_i64, sort_i64, sorted_i64, strictly_sorted_i64, seq_lt, str_lt,
    lemma_seq_lt_irreflexive, lemma_seq_lt_transitive, lemma_seq_lt_total};
use crate::storage::models::SnapshotRecord;
use crate::text::push_dec;

verus! {

broadcast use vstd::seq_lib::group_to_multiset_ensures;

/// One UTC day in milliseconds.
pub const DAY_MS: i64 = 86_400_000;

/// Retention tiers.
#[derive(Debug, Clone, Copy, PartialEq, Eq)]
pub struct RetentionPolicy {
    /// Age ≤ this many days → keep every snapshot.
    pub recent_days: u32,
    /// recent_days < age ≤ daily_days → keep one per UTC day.
    pub daily_days: u32,
    /// daily_days < age ≤ weekly_days → keep one per UTC 7-day bucket.
    pub weekly_days: u32,
}

impl Default for RetentionPolicy {
    fn default() -> (p: Self)
        ensures
            p.recent_days == 7 && p.daily_days == 30 && p.weekly_days == 365,
    {
        RetentionPolicy { recent_days: 7, daily_days: 30, weekly_days: 365 }
    }
}

/// `1 <= recent < daily < weekly`.
pub open spec fn policy_valid(p: RetentionPolicy) -> bool {
    p.recent_days >= 1 && p.daily_days > p.recent_days && p.weekly_days > p.daily_days
}

/// The explanation carried by `BadPolicy`.
pub open spec fn policy_problem(p: RetentionPolicy) -> Seq<char> {
    "recent_days="@ + crate::text::dec(p.recent_days as nat) + " daily_days="@
        + crate::text::dec(p.daily_days as nat) + " weekly_days="@ + crate::text::dec(p.weekly_days as nat)
        + " (need 1 <= recent < daily < weekly)"@
}

impl RetentionPolicy {
    /// `recent >= 1`, `daily > recent`, `weekly > daily`.
    pub fn validate(&self) -> (r: Result<(), WhyBigError>)
        ensures
            r is Ok <==> policy_valid(*self),
            r matches Err(e) ==> (e matches WhyBigError::BadPolicy(m) && m@ == policy_problem(*self)),
    {
        let ok = self.recent_days >= 1 && self.daily_days > self.recent_days
            && self.weekly_days > self.daily_days;
        if !ok {
            let mut m = String::new();
            m.append("recent_days=");
            push_dec(&mut m, self.recent_days as u128);
            m.append(" daily_days=");
            push_dec(&mut m, self.daily_days as u128);
            m.append(" weekly_days=");
            push_dec(&mut m, self.weekly_days as u128);
            m.append(" (need 1 <= recent < daily < weekly)");
            return Err(WhyBigError::BadPolicy(m));
        }
        Ok(())
    }
}

/// `a - b` saturated to the `i64` range.
pub open spec fn sat_i64(v: int) -> int {
    if v > i64::MAX { i64::MAX as int } else if v < i64::MIN { i64::MIN as int } else { v }
}

/// UTC day number of an epoch-milliseconds timestamp (floor division).
pub open spec fn epoch_day(ms: int) -> int {
    ms / (DAY_MS as int)
}

/// The 7-day bucket of a day number (`/ 7`, rounding toward zero).
pub open spec fn week_bucket(day: int) -> int {
    if day >= 0 { day / 7 } else { -((-day) / 7) }
}

/// Retention tier of a snapshot: 0 recent, 1 daily, 2 weekly, 3 expired.
pub open spec fn tier(p: RetentionPolicy, now: int, created: int) -> int {
    let age = sat_i64(now - created);
    if age <= p.recent_days * DAY_MS { 0 }
    else if age <= p.daily_days * DAY_MS { 1 }
    else if age <= p.weekly_days * DAY_MS { 2 }
    else { 3 }
}

/// The bucket a daily/weekly snapshot competes in.
pub open spec fn bucket(p: RetentionPolicy, now: int, created: int) -> int {
    if tier(p, now, created) == 1 { epoch_day(created) } else { week_bucket(epoch_day(created)) }
}

/// Snapshot `j` comes after snapshot `i` in (created_at, id, position) order.
pub open spec fn later(s: Seq<SnapshotRecord>, j: int, i: int) -> bool {
    s[j].created_at_ms > s[i].created_at_ms
        || (s[j].created_at_ms == s[i].created_at_ms
            && (s[j].id > s[i].id || (s[j].id == s[i].id && j > i)))
}

/// Snapshot `i` belongs to root `r`.
pub open spec fn in_root(s: Seq<SnapshotRecord>, r: Seq<char>, i: int) -> bool {
    0 <= i < s.len() && s[i].root_path@ == r
}

/// Snapshot `i` of root `r` is the one its daily (`t == 1`) or weekly
/// (`t == 2`) bucket keeps: the latest of that bucket.
pub open spec fn bucket_winner(p: RetentionPolicy, s: Seq<SnapshotRecord>, now: int, r: Seq<char>, t: int, i: int) -> bool {
    &&& in_root(s, r, i)
    &&& tier(p, now, s[i].created_at_ms as int) == t
    &&& forall|j: int|
        #![trigger s[j]]
        in_root(s, r, j) && j != i && tier(p, now, s[j].created_at_ms as int) == t
            && bucket(p, now, s[j].created_at_ms as int) == bucket(p, now, s[i].created_at_ms as int)
            ==> !later(s, j, i)
}

/// Which snapshots a list draws from: 0 recent, 1 daily winners,
/// 2 weekly winners, 3 every snapshot of the root.
pub open spec fn selected(p: RetentionPolicy, s: Seq<SnapshotRecord>, now: int, r: Seq<char>, kind: int, i: int) -> bool {
    if kind == 0 {
        in_root(s, r, i) && tier(p, now, s[i].created_at_ms as int) == 0
    } else if kind == 1 || kind == 2 {
        bucket_winner(p, s, now, r, kind, i)
    } else {
        in_root(s, r, i)
    }
}

/// Ids of the selected snapshots among the first `n`, in input order.
pub open spec fn ids_sel(p: RetentionPolicy, s: Seq<SnapshotRecord>, now: int, r: Seq<char>, kind: int, n: int) -> Seq<i64>
    decreases n,
{
    if n <= 0 {
        Seq::empty()
    } else {
        let prev = ids_sel(p, s, now, r, kind, n - 1);
        if selected(p, s, now, r, kind, n - 1) { prev.push(s[n - 1].id) } else { prev }
    }
}

/// Index of the root's latest snapshot among the first `n` (`-1` if none).
pub open spec fn latest_idx(s: Seq<SnapshotRecord>, r: Seq<char>, n: int) -> int
    decreases n,
{
    if n <= 0 {
        -1
    } else {
        let k = latest_idx(s, r, n - 1);
        if in_root(s, r, n - 1) && (k < 0 || later(s, n - 1, k)) { n - 1 } else { k }
    }
}

/// Ids kept by the tiers (before the latest-snapshot guarantee).
pub open spec fn tier_kept(p: RetentionPolicy, s: Seq<SnapshotRecord>, now: int, r: Seq<char>, id: i64) -> bool {
    ids_sel(p, s, now, r, 0, s.len() as int).contains(id)
        || ids_sel(p, s, now, r, 1, s.len() as int).contains(id)
        || ids_sel(p, s, now, r, 2, s.len() as int).contains(id)
}

/// Does the latest snapshot need the extra keep (no tier kept it)?
pub open spec fn latest_rescued(p: RetentionPolicy, s: Seq<SnapshotRecord>, now: int, r: Seq<char>) -> bool {
    let k = latest_idx(s, r, s.len() as int);
    k >= 0 && !tier_kept(p, s, now, r, s[k].id)
}

/// Ids of snapshots of the root that nothing keeps, in input order.
pub open spec fn removed_ids(p: RetentionPolicy, s: Seq<SnapshotRecord>, now: int, r: Seq<char>, n: int) -> Seq<i64>
    decreases n,
{
    if n <= 0 {
        Seq::empty()
    } else {
        let prev = removed_ids(p, s, now, r, n - 1);
        let k = latest_idx(s, r, s.len() as int);
        let i = n - 1;
        if in_root(s, r, i) && !tier_kept(p, s, now, r, s[i].id) && !(k >= 0 && s[k].id == s[i].id) {
            prev.push(s[i].id)
        } else {
            prev
        }
    }
}

/// Per-root keep/remove breakdown.
#[derive(Debug, Clone, PartialEq, Eq)]
pub struct RootPrunePlan {
    pub root: String,
    pub snapshot_count: usize,
    pub keep_recent: Vec<i64>,
    pub keep_daily: Vec<i64>,
    pub keep_weekly: Vec<i64>,
    pub remove: Vec<i64>,
}

/// The full retention plan. Preview and apply share exactly this plan.
#[derive(Debug, Clone, PartialEq, Eq)]
pub struct PrunePlan {
    /// UTC ms at planning time.
    pub generated_at_ms: i64,
    pub policy: RetentionPolicy,
    pub roots: Vec<RootPrunePlan>,
}

/// What the plan for root `r` must be.
pub open spec fn root_plan_spec(rp: RootPrunePlan, p: RetentionPolicy, s: Seq<SnapshotRecord>, now: int, r: Seq<char>) -> bool {
    let n = s.len() as int;
    let k = latest_idx(s, r, n);
    &&& rp.root@ == r
    &&& rp.snapshot_count == ids_sel(p, s, now, r, 3, n).len()
    &&& sorted_i64(rp.keep_recent@)
    &&& rp.keep_recent@.to_multiset() == (if latest_rescued(p, s, now, r) {
            ids_sel(p, s, now, r, 0, n).push(s[k].id)
        } else {
            ids_sel(p, s, now, r, 0, n)
        }).to_multiset()
    &&& sorted_i64(rp.keep_daily@)
    &&& rp.keep_daily@.to_multiset() == ids_sel(p, s, now, r, 1, n).to_multiset()
    &&& sorted_i64(rp.keep_weekly@)
    &&& rp.keep_weekly@.to_multiset() == ids_sel(p, s, now, r, 2, n).to_multiset()
    &&& sorted_i64(rp.remove@)
    &&& rp.remove@.to_multiset() == removed_ids(p, s, now, r, n).to_multiset()
}

/// The set of roots the snapshots belong to.
pub open spec fn root_set(s: Seq<SnapshotRecord>) -> Set<Seq<char>> {
    Set::new(|r: Seq<char>| exists|i: int| 0 <= i < s.len() && s[i].root_path@ == r)
}

/// Roots strictly ascending in string order.
pub open spec fn roots_sorted(roots: Seq<RootPrunePlan>) -> bool {
    forall|a: int, b: int| 0 <= a < b < roots.len() ==> seq_lt(roots[a].root@, roots[b].root@)
}

/// The roots a plan covers.
pub open spec fn plan_root_set(roots: Seq<RootPrunePlan>) -> Set<Seq<char>> {
    Set::new(|r: Seq<char>| exists|a: int| 0 <= a < roots.len() && roots[a].root@ == r)
}

/// What `build_plan` returns for a valid policy.
pub open spec fn plan_spec(plan: PrunePlan, p: RetentionPolicy, s: Seq<SnapshotRecord>, now: int) -> bool {
    &&& plan.generated_at_ms == now
    &&& plan.policy == p
    &&& roots_sorted(plan.roots@)
    &&& plan_root_set(plan.roots@) == root_set(s)
    &&& forall|a: int| 0 <= a < plan.roots@.len() ==> root_plan_spec(#[trigger] plan.roots@[a], p, s, now, plan.roots@[a].root@)
}


fn tier_exec(p: &RetentionPolicy, now: i64, created: i64) -> (t: u8)
    ensures
        t == tier(*p, now as int, created as int),
{
    let diff = now as i128 - created as i128;
    let age: i128 = if diff > i64::MAX as i128 {
        i64::MAX as i128
    } else if diff < i64::MIN as i128 {
        i64::MIN as i128
    } else {
        diff
    };
    if age <= p.recent_days as i128 * 86_400_000 {
        0
    } else if age <= p.daily_days as i128 * 86_400_000 {
        1
    } else if age <= p.weekly_days as i128 * 86_400_000 {
        2
    } else {
        3
    }
}

proof fn lemma_epoch_day_neg(ms: int)
    requires
        i64::MIN <= ms < 0,
    ensures
        epoch_day(ms) == -((-(ms + 1)) / (DAY_MS as int)) - 1,
        epoch_day(ms) > i64::MIN / 2,
{
    let d = DAY_MS as int;
    let x = -(ms + 1);
    let q = x / d;
    let r = x % d;
    vstd::arithmetic::div_mod::lemma_fundamental_div_mod(x, d);
    assert(0 <= r < d);
    assert(ms == (-q - 1) * d + (d - r - 1)) by (nonlinear_arith)
        requires x == d * q + r, x == -(ms + 1);
    vstd::arithmetic::div_mod::lemma_fundamental_div_mod_converse(ms, d, -q - 1, d - r - 1);
    assert(q >= 0) by (nonlinear_arith) requires x >= 0, d > 0, q == x / d;
    assert(q * 2 <= x) by (nonlinear_arith) requires x == d * q + r, d >= 2, q >= 0, r >= 0;
}

fn epoch_day_exec(ms: i64) -> (d: i64)
    ensures
        d == epoch_day(ms as int),
{
    if ms >= 0 {
        ms / DAY_MS
    } else {
        proof { lemma_epoch_day_neg(ms as int); }
        -((-(ms + 1)) / DAY_MS) - 1
    }
}

fn bucket_exec(p: &RetentionPolicy, now: i64, created: i64) -> (b: i64)
    ensures
        b == bucket(*p, now as int, created as int),
{
    let day = epoch_day_exec(created);
    proof {
        if created < 0 { lemma_epoch_day_neg(created as int); }
    }
    if tier_exec(p, now, created) == 1 {
        day
    } else if day >= 0 {
        day / 7
    } else {
        -((-day) / 7)
    }
}

fn later_exec(s: &Vec<SnapshotRecord>, j: usize, i: usize) -> (b: bool)
    requires
        j < s.len(),
        i < s.len(),
    ensures
        b == later(s@, j as int, i as int),
{
    s[j].created_at_ms > s[i].created_at_ms
        || (s[j].created_at_ms == s[i].created_at_ms
            && (s[j].id > s[i].id || (s[j].id == s[i].id && j > i)))
}

fn winner_exec(p: &RetentionPolicy, s: &Vec<SnapshotRecord>, now: i64, r: &String, t: u8, i: usize) -> (b: bool)
    requires
        i < s.len(),
        s@[i as int].root_path@ == r@,
        tier(*p, now as int, s@[i as int].created_at_ms as int) == t,
    ensures
        b == bucket_winner(*p, s@, now as int, r@, t as int, i as int),
{
    let bi = bucket_exec(p, now, s[i].created_at_ms);
    let mut j: usize = 0;
    while j < s.len()
        invariant
            i < s.len(),
            j <= s.len(),
            s@[i as int].root_path@ == r@,
            tier(*p, now as int, s@[i as int].created_at_ms as int) == t,
            bi == bucket(*p, now as int, s@[i as int].created_at_ms as int),
            forall|q: int|
                #![trigger s@[q]]
                0 <= q < j && in_root(s@, r@, q) && q != i && tier(*p, now as int, s@[q].created_at_ms as int) == t
                    && bucket(*p, now as int, s@[q].created_at_ms as int) == bi
                    ==> !later(s@, q, i as int),
        decreases s.len() - j,
    {
        if j != i && s[j].root_path == *r && tier_exec(p, now, s[j].created_at_ms) == t
            && bucket_exec(p, now, s[j].created_at_ms) == bi && later_exec(s, j, i) {
            assert(in_root(s@, r@, j as int));
            return false;
        }
        j = j + 1;
    }
    true
}

/// Ids of the snapshots a plan list draws from, in input order.
fn collect_ids(p: &RetentionPolicy, s: &Vec<SnapshotRecord>, now: i64, r: &String, kind: u8) -> (v: Vec<i64>)
    requires
        kind <= 3,
    ensures
        v@ == ids_sel(*p, s@, now as int, r@, kind as int, s.len() as int),
{
    let mut v: Vec<i64> = Vec::new();
    let mut i: usize = 0;
    while i < s.len()
        invariant
            kind <= 3,
            i <= s.len(),
            v@ == ids_sel(*p, s@, now as int, r@, kind as int, i as int),
        decreases s.len() - i,
    {
        let mut take = false;
        if s[i].root_path == *r {
            let t = tier_exec(p, now, s[i].created_at_ms);
            if kind == 0 {
                take = t == 0;
            } else if kind == 1 || kind == 2 {
                take = t == kind && winner_exec(p, s, now, r, t, i);
            } else {
                take = true;
            }
        }
        assert(take == selected(*p, s@, now as int, r@, kind as int, i as int));
        if take {
            v.push(s[i].id);
        }
        i = i + 1;
    }
    v
}

fn latest_exec(s: &Vec<SnapshotRecord>, r: &String) -> (k: Option<usize>)
    ensures
        match k {
            Some(x) => x < s.len() && latest_idx(s@, r@, s.len() as int) == x as int,
            None => latest_idx(s@, r@, s.len() as int) == -1,
        },
{
    let mut k: Option<usize> = None;
    let mut i: usize = 0;
    while i < s.len()
        invariant
            i <= s.len(),
            match k {
                Some(x) => x < i && latest_idx(s@, r@, i as int) == x as int,
                None => latest_idx(s@, r@, i as int) == -1,
            },
        decreases s.len() - i,
    {
        if s[i].root_path == *r {
            match k {
                None => { k = Some(i); },
                Some(x) => {
                    if later_exec(s, i, x) {
                        k = Some(i);
                    }
                },
            }
        }
        i = i + 1;
    }
    k
}

fn vec_contains(v: &Vec<i64>, x: i64) -> (b: bool)
    ensures
        b == v@.contains(x),
{
    let mut i: usize = 0;
    while i < v.len()
        invariant
            i <= v.len(),
            forall|j: int| 0 <= j < i ==> v@[j] != x,
        decreases v.len() - i,
    {
        if v[i] == x {
            assert(v@[i as int] == x);
            return true;
        }
        i = i + 1;
    }
    false
}

/// The plan for one root.
fn plan_root(p: &RetentionPolicy, s: &Vec<SnapshotRecord>, now: i64, r: &String) -> (rp: RootPrunePlan)
    ensures
        root_plan_spec(rp, *p, s@, now as int, r@),
{
    let ghost n = s.len() as int;
    let mut recent = collect_ids(p, s, now, r, 0);
    let daily = collect_ids(p, s, now, r, 1);
    let weekly = collect_ids(p, s, now, r, 2);
    let all = collect_ids(p, s, now, r, 3);
    let latest = latest_exec(s, r);
    let mut latest_id: Option<i64> = None;
    if let Some(k) = latest {
        let id = s[k].id;
        latest_id = Some(id);
        let kept = vec_contains(&recent, id) || vec_contains(&daily, id) || vec_contains(&weekly, id);
        assert(kept == tier_kept(*p, s@, now as int, r@, id));
        if !kept {
            recent.push(id);
        }
    }
    assert(latest_rescued(*p, s@, now as int, r@) ==> recent@ == ids_sel(*p, s@, now as int, r@, 0, n).push(s@[latest_idx(s@, r@, n)].id));
    assert(!latest_rescued(*p, s@, now as int, r@) ==> recent@ == ids_sel(*p, s@, now as int, r@, 0, n));
    let mut removed: Vec<i64> = Vec::new();
    let mut i: usize = 0;
    let ghost base0 = ids_sel(*p, s@, now as int, r@, 0, n);
    while i < s.len()
        invariant
            i <= s.len(),
            n == s.len(),
            base0 == ids_sel(*p, s@, now as int, r@, 0, n),
            daily@ == ids_sel(*p, s@, now as int, r@, 1, n),
            weekly@ == ids_sel(*p, s@, now as int, r@, 2, n),
            latest_rescued(*p, s@, now as int, r@) ==> recent@ == base0.push(s@[latest_idx(s@, r@, n)].id),
            !latest_rescued(*p, s@, now as int, r@) ==> recent@ == base0,
            match latest_id {
                Some(x) => latest_idx(s@, r@, n) >= 0 && s@[latest_idx(s@, r@, n)].id == x,
                None => latest_idx(s@, r@, n) < 0,
            },
            removed@ == removed_ids(*p, s@, now as int, r@, i as int),
        decreases s.len() - i,
    {
        if s[i].root_path == *r {
            let id = s[i].id;
            let in_base = vec_contains(&recent, id);
            let tk = in_base || vec_contains(&daily, id) || vec_contains(&weekly, id);
            let is_latest = match latest_id { Some(x) => x == id, None => false };
            proof {
                let k = latest_idx(s@, r@, n);
                if latest_rescued(*p, s@, now as int, r@) {
                    assert(recent@.contains(id) == (base0.contains(id) || s@[k].id == id)) by {
                        if recent@.contains(id) {
                            let q = choose|q: int| 0 <= q < recent@.len() && recent@[q] == id;
                            if q < base0.len() { assert(base0[q] == id); }
                        }
                        if base0.contains(id) {
                            let q = choose|q: int| 0 <= q < base0.len() && base0[q] == id;
                            assert(recent@[q] == id);
                        }
                        if s@[k].id == id { assert(recent@[base0.len() as int] == id); }
                    }
                }
                assert((tk || is_latest) == (tier_kept(*p, s@, now as int, r@, id) || (k >= 0 && s@[k].id == id)));
            }
            if !tk && !is_latest {
                removed.push(id);
            }
        }
        i = i + 1;
    }
    RootPrunePlan {
        root: r.clone(),
        snapshot_count: all.len(),
        keep_recent: sort_i64(&recent),
        keep_daily: sort_i64(&daily),
        keep_weekly: sort_i64(&weekly),
        remove: sort_i64(&removed),
    }
}


/// Strictly ascending in string order.
pub open spec fn strings_sorted(v: Seq<String>) -> bool {
    forall|a: int, b: int| 0 <= a < b < v.len() ==> seq_lt(v[a]@, v[b]@)
}

/// The roots among the first `n` snapshots.
pub open spec fn roots_upto(s: Seq<SnapshotRecord>, n: int) -> Set<Seq<char>> {
    Set::new(|r: Seq<char>| exists|i: int| 0 <= i < n && s[i].root_path@ == r)
}

/// The views of a list of strings, as a set.
pub open spec fn string_set(v: Seq<String>) -> Set<Seq<char>> {
    Set::new(|r: Seq<char>| exists|a: int| 0 <= a < v.len() && v[a]@ == r)
}

/// The distinct roots, ascending.
pub fn distinct_roots(s: &Vec<SnapshotRecord>) -> (roots: Vec<String>)
    ensures
        strings_sorted(roots@),
        string_set(roots@) == root_set(s@),
{
    let mut roots: Vec<String> = Vec::new();
    let mut i: usize = 0;
    while i < s.len()
        invariant
            i <= s.len(),
            strings_sorted(roots@),
            string_set(roots@) == roots_upto(s@, i as int),
        decreases s.len() - i,
    {
        let x = &s[i].root_path;
        let mut p: usize = 0;
        while p < roots.len() && str_lt(roots[p].as_str(), x.as_str())
            invariant
                p <= roots.len(),
                forall|q: int| 0 <= q < p ==> seq_lt(roots@[q]@, x@),
            decreases roots.len() - p,
        {
            p = p + 1;
        }
        if p < roots.len() && roots[p] == *x {
            assert(string_set(roots@) =~= roots_upto(s@, i + 1)) by {
                assert forall|r: Seq<char>| string_set(roots@).contains(r) == roots_upto(s@, i + 1).contains(r) by {
                    if r == x@ {
                        assert(roots@[p as int]@ == r);
                        assert(s@[i as int].root_path@ == r);
                    } else if roots_upto(s@, i + 1).contains(r) {
                        let k = choose|k: int| 0 <= k < i + 1 && s@[k].root_path@ == r;
                        assert(roots_upto(s@, i as int).contains(r));
                    } else if string_set(roots@).contains(r) {
                        assert(roots_upto(s@, i as int).contains(r));
                        let k = choose|k: int| 0 <= k < i && s@[k].root_path@ == r;
                        assert(roots_upto(s@, i + 1).contains(r));
                    }
                }
            }
        } else {
            proof {
                if p < roots.len() {
                    lemma_seq_lt_total(roots@[p as int]@, x@);
                }
            }
            let ghost before = roots@;
            roots.insert(p, x.clone());
            proof {
                assert forall|a: int, b: int| 0 <= a < b < roots@.len() implies seq_lt(roots@[a]@, roots@[b]@) by {
                    if b < p {
                        assert(roots@[a] == before[a]);
                        assert(roots@[b] == before[b]);
                    } else if a < p && b == p {
                    } else if a < p && b > p {
                        assert(roots@[a] == before[a]);
                        assert(roots@[b] == before[b - 1]);
                    } else if a == p && b > p {
                        assert(seq_lt(x@, before[p as int]@));
                        if b - 1 > p {
                            lemma_seq_lt_transitive(x@, before[p as int]@, before[b - 1]@);
                        }
                    } else {
                        assert(roots@[a] == before[a - 1]);
                        assert(roots@[b] == before[b - 1]);
                    }
                }
                assert(string_set(roots@) =~= roots_upto(s@, i + 1)) by {
                    assert forall|r: Seq<char>| string_set(roots@).contains(r) == roots_upto(s@, i + 1).contains(r) by {
                        if string_set(roots@).contains(r) {
                            let a = choose|a: int| 0 <= a < roots@.len() && roots@[a]@ == r;
                            if a < p {
                                assert(before[a]@ == r);
                                assert(string_set(before).contains(r));
                            } else if a > p {
                                assert(before[a - 1]@ == r);
                                assert(string_set(before).contains(r));
                            } else {
                                assert(s@[i as int].root_path@ == r);
                            }
                        }
                        if roots_upto(s@, i + 1).contains(r) {
                            if r == x@ {
                                assert(roots@[p as int]@ == r);
                            } else {
                                let k = choose|k: int| 0 <= k < i + 1 && s@[k].root_path@ == r;
                                assert(k < i);
                                assert(roots_upto(s@, i as int).contains(r));
                                assert(string_set(before).contains(r));
                                let a = choose|a: int| 0 <= a < before.len() && before[a]@ == r;
                                if a < p { assert(roots@[a]@ == r); } else { assert(roots@[a + 1]@ == r); }
                            }
                        }
                    }
                }
            }
        }
        i = i + 1;
    }
    assert(roots_upto(s@, s.len() as int) =~= root_set(s@));
    roots
}

/// Pure planner. `now_ms` is injected so callers can fix time.
///
/// Every root gets its own plan (roots never mix): snapshots no older than
/// `recent_days` are all kept; between `recent_days` and `daily_days` the
/// latest of each UTC day is kept; up to `weekly_days` the latest of each
/// 7-day bucket; older ones go; and each root's latest snapshot is always
/// kept. Everything not kept is listed for removal.
pub fn build_plan(policy: &RetentionPolicy, snapshots: &Vec<SnapshotRecord>, now_ms: i64) -> (r: Result<PrunePlan, WhyBigError>)
    ensures
        r is Ok <==> policy_valid(*policy),
        r matches Ok(plan) ==> plan_spec(plan, *policy, snapshots@, now_ms as int),
        r matches Err(e) ==> (e matches WhyBigError::BadPolicy(m) && m@ == policy_problem(*policy)),
{
    match policy.validate() {
        Ok(()) => {},
        Err(e) => return Err(e),
    }
    let roots = distinct_roots(snapshots);
    let mut plans: Vec<RootPrunePlan> = Vec::new();
    let mut a: usize = 0;
    while a < roots.len()
        invariant
            a <= roots.len(),
            plans@.len() == a,
            forall|b: int| 0 <= b < a ==> (#[trigger] plans@[b]).root@ == roots@[b]@,
            forall|b: int| 0 <= b < a ==> root_plan_spec(#[trigger] plans@[b], *policy, snapshots@, now_ms as int, plans@[b].root@),
        decreases roots.len() - a,
    {
        let rp = plan_root(policy, snapshots, now_ms, &roots[a]);
        plans.push(rp);
        a = a + 1;
    }
    let plan = PrunePlan { generated_at_ms: now_ms, policy: *policy, roots: plans };
    assert(roots_sorted(plan.roots@)) by {
        assert forall|x: int, y: int| 0 <= x < y < plan.roots@.len() implies seq_lt(plan.roots@[x].root@, plan.roots@[y].root@) by {
            assert(plan.roots@[x].root@ == roots@[x]@);
            assert(plan.roots@[y].root@ == roots@[y]@);
        }
    }
    assert(plan_root_set(plan.roots@) =~= string_set(roots@)) by {
        assert forall|r: Seq<char>| plan_root_set(plan.roots@).contains(r) == string_set(roots@).contains(r) by {
            if plan_root_set(plan.roots@).contains(r) {
                let x = choose|x: int| 0 <= x < plan.roots@.len() && plan.roots@[x].root@ == r;
                assert(roots@[x]@ == r);
            }
            if string_set(roots@).contains(r) {
                let x = choose|x: int| 0 <= x < roots@.len() && roots@[x]@ == r;
                assert(plan.roots@[x].root@ == r);
            }
        }
    }
    Ok(plan)
}


/// Every id a root plan keeps.
pub open spec fn root_keep_set(rp: RootPrunePlan) -> Set<i64> {
    rp.keep_recent@.to_set().union(rp.keep_daily@.to_set()).union(rp.keep_weekly@.to_set())
}

/// Every id any root of the plan keeps.
pub open spec fn plan_keep_set(roots: Seq<RootPrunePlan>) -> Set<i64> {
    Set::new(|x: i64| exists|a: int| 0 <= a < roots.len() && root_keep_set(roots[a]).contains(x))
}

/// Every id any root of the plan removes.
pub open spec fn plan_remove_set(roots: Seq<RootPrunePlan>) -> Set<i64> {
    Set::new(|x: i64| exists|a: int| 0 <= a < roots.len() && roots[a].remove@.contains(x))
}

/// Sum of the per-root snapshot counts.
pub open spec fn count_sum(roots: Seq<RootPrunePlan>) -> int
    decreases roots.len(),
{
    if roots.len() == 0 { 0 } else { count_sum(roots.drop_last()) + roots.last().snapshot_count }
}

fn append_all(out: &mut Vec<i64>, v: &Vec<i64>)
    ensures
        final(out)@ == old(out)@ + v@,
{
    let ghost start = out@;
    let mut i: usize = 0;
    while i < v.len()
        invariant
            i <= v.len(),
            out@ == start + v@.subrange(0, i as int),
        decreases v.len() - i,
    {
        out.push(v[i]);
        assert(v@.subrange(0, (i + 1) as int) =~= v@.subrange(0, i as int).push(v@[i as int]));
        i = i + 1;
    }
    assert(v@.subrange(0, v.len() as int) =~= v@);
}

proof fn lemma_strict_no_dup(s: Seq<i64>)
    requires
        strictly_sorted_i64(s),
    ensures
        s.no_duplicates(),
        s.to_set().len() == s.len(),
{
    assert forall|i: int, j: int| 0 <= i < s.len() && 0 <= j < s.len() && i != j implies s[i] != s[j] by {
        if i < j { assert(s[i] < s[j]); } else { assert(s[j] < s[i]); }
    }
    s.unique_seq_to_set();
}

impl RootPrunePlan {
    /// Number of kept snapshots (all three tiers).
    pub fn keep(&self) -> (n: usize)
        requires
            self.keep_recent.len() + self.keep_daily.len() + self.keep_weekly.len() <= usize::MAX,
        ensures
            n == self.keep_recent.len() + self.keep_daily.len() + self.keep_weekly.len(),
    {
        self.keep_recent.len() + self.keep_daily.len() + self.keep_weekly.len()
    }

    /// All kept snapshot ids for this root, ascending and distinct.
    pub fn keep_ids(&self) -> (ids: Vec<i64>)
        ensures
            strictly_sorted_i64(ids@),
            ids@.to_set() == root_keep_set(*self),
    {
        let mut all: Vec<i64> = Vec::new();
        append_all(&mut all, &self.keep_recent);
        append_all(&mut all, &self.keep_daily);
        append_all(&mut all, &self.keep_weekly);
        let r = sort_dedup_i64(&all);
        assert(all@.to_set() =~= root_keep_set(*self)) by {
            assert(all@ =~= self.keep_recent@ + self.keep_daily@ + self.keep_weekly@);
            assert forall|x: i64| all@.to_set().contains(x) == root_keep_set(*self).contains(x) by {
                if all@.contains(x) {
                    let k = choose|k: int| 0 <= k < all@.len() && all@[k] == x;
                    if k < self.keep_recent@.len() {
                        assert(self.keep_recent@[k] == x);
                    } else if k < self.keep_recent@.len() + self.keep_daily@.len() {
                        assert(self.keep_daily@[k - self.keep_recent@.len()] == x);
                    } else {
                        assert(self.keep_weekly@[k - self.keep_recent@.len() - self.keep_daily@.len()] == x);
                    }
                }
                if self.keep_recent@.contains(x) {
                    let k = choose|k: int| 0 <= k < self.keep_recent@.len() && self.keep_recent@[k] == x;
                    assert(all@[k] == x);
                }
                if self.keep_daily@.contains(x) {
                    let k = choose|k: int| 0 <= k < self.keep_daily@.len() && self.keep_daily@[k] == x;
                    assert(all@[k + self.keep_recent@.len()] == x);
                }
                if self.keep_weekly@.contains(x) {
                    let k = choose|k: int| 0 <= k < self.keep_weekly@.len() && self.keep_weekly@[k] == x;
                    assert(all@[k + self.keep_recent@.len() + self.keep_daily@.len()] == x);
                }
            }
        }
        r
    }
}

impl PrunePlan {
    /// Every kept snapshot id, ascending and distinct.
    pub fn keep_ids(&self) -> (ids: Vec<i64>)
        ensures
            strictly_sorted_i64(ids@),
            ids@.to_set() == plan_keep_set(self.roots@),
    {
        let mut all: Vec<i64> = Vec::new();
        let mut a: usize = 0;
        while a < self.roots.len()
            invariant
                a <= self.roots.len(),
                all@.to_set() == plan_keep_set(self.roots@.subrange(0, a as int)),
            decreases self.roots.len() - a,
        {
            let ghost before = all@;
            let rp = &self.roots[a];
            let ids = rp.keep_ids();
            append_all(&mut all, &ids);
            proof {
                let pre = self.roots@.subrange(0, a as int);
                let post = self.roots@.subrange(0, (a + 1) as int);
                assert(all@.to_set() =~= plan_keep_set(post)) by {
                    assert forall|x: i64| all@.to_set().contains(x) == plan_keep_set(post).contains(x) by {
                        if all@.contains(x) {
                            let k = choose|k: int| 0 <= k < all@.len() && all@[k] == x;
                            if k < before.len() {
                                assert(before[k] == x);
                                assert(plan_keep_set(pre).contains(x));
                                let b = choose|b: int| 0 <= b < pre.len() && root_keep_set(pre[b]).contains(x);
                                assert(post[b] == pre[b]);
                            } else {
                                assert(ids@[k - before.len()] == x);
                                assert(ids@.to_set().contains(x));
                                assert(post[a as int] == *rp);
                            }
                        }
                        if plan_keep_set(post).contains(x) {
                            let b = choose|b: int| 0 <= b < post.len() && root_keep_set(post[b]).contains(x);
                            if b < a {
                                assert(pre[b] == post[b]);
                                assert(plan_keep_set(pre).contains(x));
                                assert(before.to_set().contains(x));
                                let k = choose|k: int| 0 <= k < before.len() && before[k] == x;
                                assert(all@[k] == x);
                            } else {
                                assert(ids@.to_set().contains(x));
                                let k = choose|k: int| 0 <= k < ids@.len() && ids@[k] == x;
                                assert(all@[before.len() + k] == x);
                            }
                        }
                    }
                }
            }
            a = a + 1;
        }
        assert(self.roots@.subrange(0, self.roots.len() as int) =~= self.roots@);
        sort_dedup_i64(&all)
    }

    /// Every snapshot id to remove, ascending and distinct.
    pub fn remove_ids(&self) -> (ids: Vec<i64>)
        ensures
            strictly_sorted_i64(ids@),
            ids@.to_set() == plan_remove_set(self.roots@),
    {
        let mut all: Vec<i64> = Vec::new();
        let mut a: usize = 0;
        while a < self.roots.len()
            invariant
                a <= self.roots.len(),
                all@.to_set() == plan_remove_set(self.roots@.subrange(0, a as int)),
            decreases self.roots.len() - a,
        {
            let ghost before = all@;
            let rp = &self.roots[a];
            append_all(&mut all, &rp.remove);
            proof {
                let pre = self.roots@.subrange(0, a as int);
                let post = self.roots@.subrange(0, (a + 1) as int);
                assert(all@.to_set() =~= plan_remove_set(post)) by {
                    assert forall|x: i64| all@.to_set().contains(x) == plan_remove_set(post).contains(x) by {
                        if all@.contains(x) {
                            let k = choose|k: int| 0 <= k < all@.len() && all@[k] == x;
                            if k < before.len() {
                                assert(before[k] == x);
                                assert(plan_remove_set(pre).contains(x));
                                let b = choose|b: int| 0 <= b < pre.len() && pre[b].remove@.contains(x);
                                assert(post[b] == pre[b]);
                            } else {
                                assert(rp.remove@[k - before.len()] == x);
                                assert(post[a as int] == *rp);
                            }
                        }
                        if plan_remove_set(post).contains(x) {
                            let b = choose|b: int| 0 <= b < post.len() && post[b].remove@.contains(x);
                            if b < a {
                                assert(pre[b] == post[b]);
                                assert(plan_remove_set(pre).contains(x));
                                assert(before.to_set().contains(x));
                                let k = choose|k: int| 0 <= k < before.len() && before[k] == x;
                                assert(all@[k] == x);
                            } else {
                                let k = choose|k: int| 0 <= k < rp.remove@.len() && rp.remove@[k] == x;
                                assert(all@[before.len() + k] == x);
                            }
                        }
                    }
                }
            }
            a = a + 1;
        }
        assert(self.roots@.subrange(0, self.roots.len() as int) =~= self.roots@);
        sort_dedup_i64(&all)
    }

    /// Total number of snapshots the plan covers.
    pub fn total_snapshots(&self) -> (n: usize)
        requires
            count_sum(self.roots@) <= usize::MAX,
        ensures
            n == count_sum(self.roots@),
    {
        let mut total: usize = 0;
        let mut a: usize = 0;
        while a < self.roots.len()
            invariant
                a <= self.roots.len(),
                count_sum(self.roots@) <= usize::MAX,
                total == count_sum(self.roots@.subrange(0, a as int)),
            decreases self.roots.len() - a,
        {
            proof {
                assert(self.roots@.subrange(0, (a + 1) as int).drop_last() =~= self.roots@.subrange(0, a as int));
                lemma_count_sum_prefix(self.roots@, (a + 1) as int);
            }
            total = total + self.roots[a].snapshot_count;
            a = a + 1;
        }
        assert(self.roots@.subrange(0, self.roots.len() as int) =~= self.roots@);
        total
    }

    /// Number of distinct kept ids.
    pub fn total_keep(&self) -> (n: usize)
        ensures
            n == plan_keep_set(self.roots@).len(),
    {
        let ids = self.keep_ids();
        proof { lemma_strict_no_dup(ids@); }
        ids.len()
    }

    /// Number of distinct ids to remove.
    pub fn total_remove(&self) -> (n: usize)
        ensures
            n == plan_remove_set(self.roots@).len(),
    {
        let ids = self.remove_ids();
        proof { lemma_strict_no_dup(ids@); }
        ids.len()
    }
}

proof fn lemma_count_sum_prefix(roots: Seq<RootPrunePlan>, k: int)
    requires
        0 <= k <= roots.len(),
    ensures
        count_sum(roots.subrange(0, k)) <= count_sum(roots),
    decreases roots.len() - k,
{
    if k < roots.len() {
        lemma_count_sum_prefix(roots, k + 1);
        assert(roots.subrange(0, k + 1).drop_last() =~= roots.subrange(0, k));
    } else {
        assert(roots.subrange(0, k) =~= roots);
    }
}


/// The largest snapshot id of root `r` among the first `n` snapshots.
pub open spec fn max_id_upto(s: Seq<SnapshotRecord>, r: Seq<char>, n: int) -> Option<i64>
    decreases n,
{
    if n <= 0 {
        None
    } else {
        let prev = max_id_upto(s, r, n - 1);
        if in_root(s, r, n - 1) {
            match prev {
                Some(m) => if s[n - 1].id > m { Some(s[n - 1].id) } else { Some(m) },
                None => Some(s[n - 1].id),
            }
        } else {
            prev
        }
    }
}

/// Would removing `ids` delete root `r`'s newest (highest-id) snapshot?
pub open spec fn removes_latest(s: Seq<SnapshotRecord>, r: Seq<char>, ids: Set<i64>) -> bool {
    match max_id_upto(s, r, s.len() as int) {
        Some(m) => ids.contains(m),
        None => false,
    }
}

/// The message of a refused prune.
pub open spec fn refusal_text(r: Seq<char>) -> Seq<char> {
    "refusing to delete the latest snapshot of root `"@ + r + "`"@
}

/// What applying a plan amounts to.
#[derive(Debug, Clone, Copy, PartialEq, Eq)]
pub struct PruneSummary {
    pub snapshots_removed: i64,
}

/// The only component allowed to decide a deletion. It re-checks the plan
/// against the stored snapshots: no root's newest snapshot may be removed
/// (which also covers single-snapshot roots).
pub struct PruneExecutor;

fn max_id_exec(s: &Vec<SnapshotRecord>, r: &String) -> (m: Option<i64>)
    ensures
        m == max_id_upto(s@, r@, s.len() as int),
{
    let mut m: Option<i64> = None;
    let mut i: usize = 0;
    while i < s.len()
        invariant
            i <= s.len(),
            m == max_id_upto(s@, r@, i as int),
        decreases s.len() - i,
    {
        if s[i].root_path == *r {
            m = match m {
                Some(x) => if s[i].id > x { Some(s[i].id) } else { Some(x) },
                None => Some(s[i].id),
            };
        }
        i = i + 1;
    }
    m
}

impl PruneExecutor {
    /// The ids the plan may delete (ascending, distinct), after checking
    /// that no root's newest snapshot among `all` is among them. When
    /// several roots would lose their newest, the first root in string
    /// order is named.
    pub fn checked_removals(plan: &PrunePlan, all: &Vec<SnapshotRecord>) -> (r: Result<Vec<i64>, WhyBigError>)
        ensures
            r matches Ok(ids) ==> strictly_sorted_i64(ids@) && ids@.to_set() == plan_remove_set(plan.roots@)
                && (plan_remove_set(plan.roots@).len() > 0 ==> forall|x: Seq<char>| #[trigger] root_set(all@).contains(x)
                    ==> !removes_latest(all@, x, plan_remove_set(plan.roots@))),
            r matches Err(e) ==> exists|x: Seq<char>| {
                &&& #[trigger] root_set(all@).contains(x)
                &&& removes_latest(all@, x, plan_remove_set(plan.roots@))
                &&& forall|y: Seq<char>| root_set(all@).contains(y) && removes_latest(all@, y, plan_remove_set(plan.roots@))
                    ==> !seq_lt(y, x)
                &&& e matches WhyBigError::PruneSafety(m) && m@ == refusal_text(x)
            },
            r is Err <==> (plan_remove_set(plan.roots@).len() > 0 && exists|x: Seq<char>|
                #[trigger] root_set(all@).contains(x) && removes_latest(all@, x, plan_remove_set(plan.roots@))),
    {
        let ids = plan.remove_ids();
        let ghost rs = plan_remove_set(plan.roots@);
        if ids.len() == 0 {
            assert(ids@.to_set() =~= Set::<i64>::empty());
            return Ok(ids);
        }
        proof {
            lemma_strict_no_dup(ids@);
        }
        let roots = distinct_roots(all);
        let mut a: usize = 0;
        while a < roots.len()
            invariant
                a <= roots.len(),
                strings_sorted(roots@),
                string_set(roots@) == root_set(all@),
                ids@.to_set() == rs,
                rs.len() > 0,
                rs == plan_remove_set(plan.roots@),
                forall|b: int| 0 <= b < a ==> !removes_latest(all@, #[trigger] roots@[b]@, rs),
            decreases roots.len() - a,
        {
            let m = max_id_exec(all, &roots[a]);
            let hit = match m {
                Some(x) => vec_contains(&ids, x),
                None => false,
            };
            assert(hit == removes_latest(all@, roots@[a as int]@, rs)) by {
                if let Some(x) = m {
                    assert(ids@.contains(x) == ids@.to_set().contains(x));
                }
            }
            if hit {
                let mut msg = String::new();
                msg.append("refusing to delete the latest snapshot of root `");
                msg.append(roots[a].as_str());
                msg.append("`");
                proof {
                    let x = roots@[a as int]@;
                    assert(string_set(roots@).contains(x));
                    assert(ids@.to_set().contains(m.unwrap()));
                    assert(removes_latest(all@, x, rs));
                    assert(root_set(all@).contains(x));
                    assert(msg@ == refusal_text(x));
                    assert forall|y: Seq<char>| root_set(all@).contains(y) && removes_latest(all@, y, rs)
                        implies !seq_lt(y, x) by {
                        assert(string_set(roots@).contains(y));
                        let b = choose|b: int| 0 <= b < roots@.len() && roots@[b]@ == y;
                        if b < a {
                        } else if b > a {
                            lemma_seq_lt_irreflexive(x);
                            if seq_lt(y, x) {
                                lemma_seq_lt_transitive(x, y, x);
                            }
                        } else {
                            lemma_seq_lt_irreflexive(x);
                        }
                    }
                }
                return Err(WhyBigError::PruneSafety(msg));
            }
            a = a + 1;
        }
        proof {
            assert forall|x: Seq<char>| #[trigger] root_set(all@).contains(x) implies !removes_latest(all@, x, rs) by {
                assert(string_set(roots@).contains(x));
                let b = choose|b: int| 0 <= b < roots@.len() && roots@[b]@ == x;
            }
        }
        Ok(ids)
    }
}


proof fn lemma_push_contains(s: Seq<i64>, y: i64, x: i64)
    ensures
        s.push(y).contains(x) <==> (s.contains(x) || y == x),
{
    if s.push(y).contains(x) {
        let q = choose|q: int| 0 <= q < s.push(y).len() && #[trigger] s.push(y)[q] == x;
        if q < s.len() { assert(s[q] == x); }
    }
    if s.contains(x) {
        let q = choose|q: int| 0 <= q < s.len() && s[q] == x;
        assert(s.push(y)[q] == x);
    }
    if y == x { assert(s.push(y)[s.len() as int] == x); }
}

proof fn lemma_ids_sel_contains(p: RetentionPolicy, s: Seq<SnapshotRecord>, now: int, r: Seq<char>, kind: int, n: int, x: i64)
    requires
        0 <= n <= s.len(),
    ensures
        ids_sel(p, s, now, r, kind, n).contains(x)
            <==> exists|i: int| 0 <= i < n && selected(p, s, now, r, kind, i) && s[i].id == x,
    decreases n,
{
    if n > 0 {
        lemma_ids_sel_contains(p, s, now, r, kind, n - 1, x);
        let prev = ids_sel(p, s, now, r, kind, n - 1);
        if selected(p, s, now, r, kind, n - 1) {
            lemma_push_contains(prev, s[n - 1].id, x);
        }
    }
}

proof fn lemma_removed_contains(p: RetentionPolicy, s: Seq<SnapshotRecord>, now: int, r: Seq<char>, n: int, x: i64)
    requires
        0 <= n <= s.len(),
    ensures
        removed_ids(p, s, now, r, n).contains(x) <==> exists|i: int| 0 <= i < n && in_root(s, r, i) && s[i].id == x
            && !tier_kept(p, s, now, r, x)
            && !(latest_idx(s, r, s.len() as int) >= 0 && s[latest_idx(s, r, s.len() as int)].id == x),
    decreases n,
{
    if n > 0 {
        lemma_removed_contains(p, s, now, r, n - 1, x);
        let prev = removed_ids(p, s, now, r, n - 1);
        let k = latest_idx(s, r, s.len() as int);
        let i = n - 1;
        if in_root(s, r, i) && !tier_kept(p, s, now, r, s[i].id) && !(k >= 0 && s[k].id == s[i].id) {
            lemma_push_contains(prev, s[i].id, x);
        }
    }
}

proof fn lemma_latest_idx(s: Seq<SnapshotRecord>, r: Seq<char>, n: int)
    requires
        0 <= n <= s.len(),
    ensures
        latest_idx(s, r, n) >= 0 ==> latest_idx(s, r, n) < n && in_root(s, r, latest_idx(s, r, n)),
        (exists|i: int| 0 <= i < n && in_root(s, r, i)) ==> latest_idx(s, r, n) >= 0,
        latest_idx(s, r, n) >= -1,
    decreases n,
{
    if n > 0 {
        lemma_latest_idx(s, r, n - 1);
        if exists|i: int| 0 <= i < n && in_root(s, r, i) {
            let i = choose|i: int| 0 <= i < n && in_root(s, r, i);
            if i < n - 1 {
                assert(exists|j: int| 0 <= j < n - 1 && in_root(s, r, j));
            }
        }
    }
}

proof fn lemma_multiset_contains_seq(a: Seq<i64>, b: Seq<i64>, x: i64)
    requires
        a.to_multiset() == b.to_multiset(),
    ensures
        a.contains(x) == b.contains(x),
{
    assert(a.contains(x) <==> a.to_multiset().count(x) > 0);
    assert(b.contains(x) <==> b.to_multiset().count(x) > 0);
}

/// Law: every root's newest snapshot (latest by creation time, then id) is
/// kept, however old it is.
pub proof fn law_latest_snapshot_is_kept(plan: PrunePlan, p: RetentionPolicy, s: Seq<SnapshotRecord>, now: int, a: int)
    requires
        plan_spec(plan, p, s, now),
        0 <= a < plan.roots@.len(),
    ensures
        latest_idx(s, plan.roots@[a].root@, s.len() as int) >= 0,
        root_keep_set(plan.roots@[a]).contains(s[latest_idx(s, plan.roots@[a].root@, s.len() as int)].id),
{
    let rp = plan.roots@[a];
    let r = rp.root@;
    let n = s.len() as int;
    assert(plan_root_set(plan.roots@).contains(r));
    assert(root_set(s).contains(r));
    let w = choose|i: int| 0 <= i < s.len() && s[i].root_path@ == r;
    assert(in_root(s, r, w));
    lemma_latest_idx(s, r, n);
    let k = latest_idx(s, r, n);
    let id = s[k].id;
    assert(root_plan_spec(rp, p, s, now, r));
    if latest_rescued(p, s, now, r) {
        let base = ids_sel(p, s, now, r, 0, n);
        assert(base.push(id)[base.len() as int] == id);
        lemma_multiset_contains_seq(rp.keep_recent@, base.push(id), id);
        assert(rp.keep_recent@.to_set().contains(id));
    } else {
        if ids_sel(p, s, now, r, 0, n).contains(id) {
            lemma_multiset_contains_seq(rp.keep_recent@, ids_sel(p, s, now, r, 0, n), id);
            assert(rp.keep_recent@.to_set().contains(id));
        } else if ids_sel(p, s, now, r, 1, n).contains(id) {
            lemma_multiset_contains_seq(rp.keep_daily@, ids_sel(p, s, now, r, 1, n), id);
            assert(rp.keep_daily@.to_set().contains(id));
        } else {
            lemma_multiset_contains_seq(rp.keep_weekly@, ids_sel(p, s, now, r, 2, n), id);
            assert(rp.keep_weekly@.to_set().contains(id));
        }
    }
}

/// Law: every snapshot no older than `recent_days` is kept.
pub proof fn law_recent_snapshots_are_kept(plan: PrunePlan, p: RetentionPolicy, s: Seq<SnapshotRecord>, now: int, a: int, i: int)
    requires
        plan_spec(plan, p, s, now),
        0 <= a < plan.roots@.len(),
        in_root(s, plan.roots@[a].root@, i),
        tier(p, now, s[i].created_at_ms as int) == 0,
    ensures
        root_keep_set(plan.roots@[a]).contains(s[i].id),
{
    let rp = plan.roots@[a];
    let r = rp.root@;
    let n = s.len() as int;
    assert(root_plan_spec(rp, p, s, now, r));
    lemma_ids_sel_contains(p, s, now, r, 0, n, s[i].id);
    assert(selected(p, s, now, r, 0, i));
    let base = ids_sel(p, s, now, r, 0, n);
    if latest_rescued(p, s, now, r) {
        let k = latest_idx(s, r, n);
        let q = choose|q: int| 0 <= q < base.len() && base[q] == s[i].id;
        assert(base.push(s[k].id)[q] == s[i].id);
        lemma_multiset_contains_seq(rp.keep_recent@, base.push(s[k].id), s[i].id);
    } else {
        lemma_multiset_contains_seq(rp.keep_recent@, base, s[i].id);
    }
    assert(rp.keep_recent@.to_set().contains(s[i].id));
}

/// Law: a daily (`t == 1`) or weekly (`t == 2`) bucket keeps at most one
/// snapshot: two different kept snapshots of one tier lie in different
/// buckets.
pub proof fn law_one_snapshot_per_bucket(p: RetentionPolicy, s: Seq<SnapshotRecord>, now: int, r: Seq<char>, t: int, i: int, j: int)
    requires
        bucket_winner(p, s, now, r, t, i),
        bucket_winner(p, s, now, r, t, j),
        i != j,
    ensures
        bucket(p, now, s[i].created_at_ms as int) != bucket(p, now, s[j].created_at_ms as int),
{
    if bucket(p, now, s[i].created_at_ms as int) == bucket(p, now, s[j].created_at_ms as int) {
        assert(!later(s, j, i));
        assert(!later(s, i, j));
    }
}

/// The ids of a root's snapshots.
pub open spec fn root_ids(s: Seq<SnapshotRecord>, r: Seq<char>) -> Set<i64> {
    Set::new(|x: i64| exists|i: int| in_root(s, r, i) && s[i].id == x)
}

/// Law: for each root, the kept ids and the removed ids split the root's
/// snapshot ids: nothing is both kept and removed, nothing is forgotten.
pub proof fn law_keep_and_remove_partition_the_root(plan: PrunePlan, p: RetentionPolicy, s: Seq<SnapshotRecord>, now: int, a: int)
    requires
        plan_spec(plan, p, s, now),
        0 <= a < plan.roots@.len(),
    ensures
        root_keep_set(plan.roots@[a]).disjoint(plan.roots@[a].remove@.to_set()),
        root_keep_set(plan.roots@[a]).union(plan.roots@[a].remove@.to_set()) == root_ids(s, plan.roots@[a].root@),
{
    let rp = plan.roots@[a];
    let r = rp.root@;
    let n = s.len() as int;
    assert(root_plan_spec(rp, p, s, now, r));
    let k = latest_idx(s, r, n);
    lemma_latest_idx(s, r, n);
    let base = ids_sel(p, s, now, r, 0, n);
    assert forall|x: i64| root_keep_set(rp).contains(x)
        <==> (tier_kept(p, s, now, r, x) || (latest_rescued(p, s, now, r) && s[k].id == x)) by {
        lemma_multiset_contains_seq(rp.keep_daily@, ids_sel(p, s, now, r, 1, n), x);
        lemma_multiset_contains_seq(rp.keep_weekly@, ids_sel(p, s, now, r, 2, n), x);
        if latest_rescued(p, s, now, r) {
            lemma_multiset_contains_seq(rp.keep_recent@, base.push(s[k].id), x);
            lemma_push_contains(base, s[k].id, x);
        } else {
            lemma_multiset_contains_seq(rp.keep_recent@, base, x);
        }
    }
    assert forall|x: i64| rp.remove@.to_set().contains(x) <==> removed_ids(p, s, now, r, n).contains(x) by {
        lemma_multiset_contains_seq(rp.remove@, removed_ids(p, s, now, r, n), x);
    }
    assert forall|x: i64| #![auto] tier_kept(p, s, now, r, x) ==> root_ids(s, r).contains(x) by {
        if tier_kept(p, s, now, r, x) {
            lemma_ids_sel_contains(p, s, now, r, 0, n, x);
            lemma_ids_sel_contains(p, s, now, r, 1, n, x);
            lemma_ids_sel_contains(p, s, now, r, 2, n, x);
            if ids_sel(p, s, now, r, 0, n).contains(x) {
                let i = choose|i: int| 0 <= i < n && selected(p, s, now, r, 0, i) && s[i].id == x;
            } else if ids_sel(p, s, now, r, 1, n).contains(x) {
                let i = choose|i: int| 0 <= i < n && selected(p, s, now, r, 1, i) && s[i].id == x;
            } else {
                let i = choose|i: int| 0 <= i < n && selected(p, s, now, r, 2, i) && s[i].id == x;
            }
        }
    }
    assert forall|x: i64| !(root_keep_set(rp).contains(x) && rp.remove@.to_set().contains(x)) by {
        lemma_removed_contains(p, s, now, r, n, x);
    }
    assert(root_keep_set(rp).union(rp.remove@.to_set()) =~= root_ids(s, r)) by {
        assert forall|x: i64| root_keep_set(rp).union(rp.remove@.to_set()).contains(x) == root_ids(s, r).contains(x) by {
            lemma_removed_contains(p, s, now, r, n, x);
            if root_ids(s, r).contains(x) {
                let i = choose|i: int| in_root(s, r, i) && s[i].id == x;
                if !tier_kept(p, s, now, r, x) && !(k >= 0 && s[k].id == x) {
                    assert(removed_ids(p, s, now, r, n).contains(x));
                } else if !tier_kept(p, s, now, r, x) {
                    assert(latest_rescued(p, s, now, r));
                }
            }
            if root_keep_set(rp).contains(x) && !tier_kept(p, s, now, r, x) {
                assert(in_root(s, r, k));
            }
        }
    }
}

/// The ids of all snapshots.
pub open spec fn snapshot_ids(s: Seq<SnapshotRecord>) -> Seq<i64> {
    Seq::new(s.len(), |i: int| s[i].id)
}

/// No two snapshots share an id.
pub open spec fn ids_distinct(s: Seq<SnapshotRecord>) -> bool {
    forall|i: int, j: int| 0 <= i < s.len() && 0 <= j < s.len() && i != j ==> s[i].id != s[j].id
}

/// Law: across all roots, nothing is both kept and removed, the kept and
/// the removed ids together are exactly the snapshots' ids, and the kept
/// count plus the removed count is the number of snapshots.
pub proof fn law_keep_and_remove_partition_all(plan: PrunePlan, p: RetentionPolicy, s: Seq<SnapshotRecord>, now: int)
    requires
        plan_spec(plan, p, s, now),
        ids_distinct(s),
    ensures
        plan_keep_set(plan.roots@).disjoint(plan_remove_set(plan.roots@)),
        plan_keep_set(plan.roots@).union(plan_remove_set(plan.roots@)) == snapshot_ids(s).to_set(),
        plan_keep_set(plan.roots@).len() + plan_remove_set(plan.roots@).len() == s.len(),
{
    let roots = plan.roots@;
    let k = plan_keep_set(roots);
    let rm = plan_remove_set(roots);
    let all = snapshot_ids(s).to_set();
    assert forall|x: i64| k.contains(x) || rm.contains(x) implies all.contains(x) by {
        let a = if k.contains(x) {
            choose|a: int| 0 <= a < roots.len() && root_keep_set(roots[a]).contains(x)
        } else {
            choose|a: int| 0 <= a < roots.len() && roots[a].remove@.contains(x)
        };
        law_keep_and_remove_partition_the_root(plan, p, s, now, a);
        assert(root_keep_set(roots[a]).union(roots[a].remove@.to_set()).contains(x));
        let i = choose|i: int| in_root(s, roots[a].root@, i) && s[i].id == x;
        assert(snapshot_ids(s)[i] == x);
    }
    assert forall|x: i64| all.contains(x) implies k.contains(x) || rm.contains(x) by {
        let i = choose|i: int| 0 <= i < snapshot_ids(s).len() && snapshot_ids(s)[i] == x;
        let r = s[i].root_path@;
        assert(root_set(s).contains(r));
        assert(plan_root_set(roots).contains(r));
        let a = choose|a: int| 0 <= a < roots.len() && roots[a].root@ == r;
        law_keep_and_remove_partition_the_root(plan, p, s, now, a);
        assert(s[i].id == x);
        assert(in_root(s, r, i));
        assert(root_ids(s, r).contains(x));
        assert(root_keep_set(roots[a]).union(roots[a].remove@.to_set()).contains(x));
        if !root_keep_set(roots[a]).contains(x) {
            assert(roots[a].remove@.contains(x));
        }
    }
    assert forall|x: i64| !(k.contains(x) && rm.contains(x)) by {
        if k.contains(x) && rm.contains(x) {
            let a = choose|a: int| 0 <= a < roots.len() && root_keep_set(roots[a]).contains(x);
            let b = choose|b: int| 0 <= b < roots.len() && roots[b].remove@.contains(x);
            law_keep_and_remove_partition_the_root(plan, p, s, now, a);
            law_keep_and_remove_partition_the_root(plan, p, s, now, b);
            if a == b {
                assert(roots[a].remove@.to_set().contains(x));
            } else {
                assert(root_keep_set(roots[a]).union(roots[a].remove@.to_set()).contains(x));
                assert(root_keep_set(roots[b]).union(roots[b].remove@.to_set()).contains(x));
                let i = choose|i: int| in_root(s, roots[a].root@, i) && s[i].id == x;
                let j = choose|j: int| in_root(s, roots[b].root@, j) && s[j].id == x;
                assert(i == j);
                lemma_seq_lt_irreflexive(roots[a].root@);
                lemma_seq_lt_irreflexive(roots[b].root@);
                assert(a < b || b < a);
            }
        }
    }
    assert(k.union(rm) =~= all);
    assert(snapshot_ids(s).no_duplicates());
    snapshot_ids(s).unique_seq_to_set();
    vstd::set_lib::lemma_set_subset_finite(all, k);
    vstd::set_lib::lemma_set_subset_finite(all, rm);
    vstd::set_lib::lemma_set_disjoint_lens(k, rm);
}

proof fn lemma_push_no_dup(prev: Seq<i64>, y: i64)
    requires
        prev.no_duplicates(),
        !prev.contains(y),
    ensures
        prev.push(y).no_duplicates(),
{
    assert forall|a: int, b: int| 0 <= a < prev.push(y).len() && 0 <= b < prev.push(y).len() && a != b
        implies #[trigger] prev.push(y)[a] != #[trigger] prev.push(y)[b] by {
        if a == prev.len() { assert(prev.contains(prev[b])); }
        if b == prev.len() { assert(prev.contains(prev[a])); }
    }
}

proof fn lemma_sel_member(p: RetentionPolicy, s: Seq<SnapshotRecord>, now: int, r: Seq<char>, kind: int, i: int)
    requires
        ids_distinct(s),
        0 <= i < s.len(),
    ensures
        ids_sel(p, s, now, r, kind, s.len() as int).contains(s[i].id) <==> selected(p, s, now, r, kind, i),
{
    lemma_ids_sel_contains(p, s, now, r, kind, s.len() as int, s[i].id);
}

proof fn lemma_ids_sel_no_dup(p: RetentionPolicy, s: Seq<SnapshotRecord>, now: int, r: Seq<char>, kind: int, n: int)
    requires
        ids_distinct(s),
        0 <= n <= s.len(),
    ensures
        ids_sel(p, s, now, r, kind, n).no_duplicates(),
    decreases n,
{
    if n > 0 {
        lemma_ids_sel_no_dup(p, s, now, r, kind, n - 1);
        lemma_ids_sel_contains(p, s, now, r, kind, n - 1, s[n - 1].id);
        let prev = ids_sel(p, s, now, r, kind, n - 1);
        if selected(p, s, now, r, kind, n - 1) {
            lemma_push_no_dup(prev, s[n - 1].id);
        }
    }
}

proof fn lemma_latest_is_max(s: Seq<SnapshotRecord>, r: Seq<char>, n: int)
    requires
        0 <= n <= s.len(),
    ensures
        forall|j: int| #![trigger in_root(s, r, j)]
            0 <= j < n && in_root(s, r, j) && j != latest_idx(s, r, n) ==> !later(s, j, latest_idx(s, r, n)),
    decreases n,
{
    if n > 0 {
        lemma_latest_is_max(s, r, n - 1);
        lemma_latest_idx(s, r, n - 1);
    }
}

proof fn lemma_nodup_same_multiset(a: Seq<i64>, b: Seq<i64>)
    requires
        a.to_multiset() == b.to_multiset(),
        b.no_duplicates(),
    ensures
        a.no_duplicates(),
{
    b.lemma_multiset_has_no_duplicates();
    a.lemma_multiset_has_no_duplicates_conv();
}

proof fn lemma_sorted_nodup_strict(a: Seq<i64>)
    requires
        sorted_i64(a),
        a.no_duplicates(),
    ensures
        strictly_sorted_i64(a),
{
}

/// Law: with distinct snapshot ids, each of a root's lists (recent, daily,
/// weekly, remove) is strictly ascending, and no id is in two of its
/// keep lists.
pub proof fn law_keep_lists_are_strict_and_disjoint(plan: PrunePlan, p: RetentionPolicy, s: Seq<SnapshotRecord>, now: int, a: int)
    requires
        plan_spec(plan, p, s, now),
        ids_distinct(s),
        0 <= a < plan.roots@.len(),
    ensures
        strictly_sorted_i64(plan.roots@[a].keep_recent@),
        strictly_sorted_i64(plan.roots@[a].keep_daily@),
        strictly_sorted_i64(plan.roots@[a].keep_weekly@),
        strictly_sorted_i64(plan.roots@[a].remove@),
        plan.roots@[a].keep_recent@.to_set().disjoint(plan.roots@[a].keep_daily@.to_set()),
        plan.roots@[a].keep_recent@.to_set().disjoint(plan.roots@[a].keep_weekly@.to_set()),
        plan.roots@[a].keep_daily@.to_set().disjoint(plan.roots@[a].keep_weekly@.to_set()),
{
    let rp = plan.roots@[a];
    let r = rp.root@;
    let n = s.len() as int;
    assert(root_plan_spec(rp, p, s, now, r));
    let k = latest_idx(s, r, n);
    lemma_latest_idx(s, r, n);
    let base = ids_sel(p, s, now, r, 0, n);
    lemma_ids_sel_no_dup(p, s, now, r, 0, n);
    lemma_ids_sel_no_dup(p, s, now, r, 1, n);
    lemma_ids_sel_no_dup(p, s, now, r, 2, n);
    if latest_rescued(p, s, now, r) {
        assert(!base.contains(s[k].id));
        lemma_push_no_dup(base, s[k].id);
        lemma_nodup_same_multiset(rp.keep_recent@, base.push(s[k].id));
    } else {
        lemma_nodup_same_multiset(rp.keep_recent@, base);
    }
    lemma_nodup_same_multiset(rp.keep_daily@, ids_sel(p, s, now, r, 1, n));
    lemma_nodup_same_multiset(rp.keep_weekly@, ids_sel(p, s, now, r, 2, n));
    lemma_sorted_nodup_strict(rp.keep_recent@);
    lemma_sorted_nodup_strict(rp.keep_daily@);
    lemma_sorted_nodup_strict(rp.keep_weekly@);
    lemma_removed_no_dup(p, s, now, r, n);
    lemma_nodup_same_multiset(rp.remove@, removed_ids(p, s, now, r, n));
    lemma_sorted_nodup_strict(rp.remove@);
    assert forall|x: i64| !(rp.keep_recent@.contains(x) && rp.keep_daily@.contains(x)) by {
        lemma_keep_kinds(plan, p, s, now, a, x);
    }
    assert forall|x: i64| !(rp.keep_recent@.contains(x) && rp.keep_weekly@.contains(x)) by {
        lemma_keep_kinds(plan, p, s, now, a, x);
    }
    assert forall|x: i64| !(rp.keep_daily@.contains(x) && rp.keep_weekly@.contains(x)) by {
        lemma_keep_kinds(plan, p, s, now, a, x);
    }
}

proof fn lemma_removed_no_dup(p: RetentionPolicy, s: Seq<SnapshotRecord>, now: int, r: Seq<char>, n: int)
    requires
        ids_distinct(s),
        0 <= n <= s.len(),
    ensures
        removed_ids(p, s, now, r, n).no_duplicates(),
    decreases n,
{
    if n > 0 {
        lemma_removed_no_dup(p, s, now, r, n - 1);
        lemma_removed_contains(p, s, now, r, n - 1, s[n - 1].id);
        let prev = removed_ids(p, s, now, r, n - 1);
        let y = s[n - 1].id;
        if removed_ids(p, s, now, r, n) == prev.push(y) {
            assert(!prev.contains(y));
            lemma_push_no_dup(prev, y);
        }
    }
}

/// Which kind of keep list an id of root `a` is in: the tier of the one
/// snapshot carrying it (or the latest snapshot, for a rescue).
proof fn lemma_keep_kinds(plan: PrunePlan, p: RetentionPolicy, s: Seq<SnapshotRecord>, now: int, a: int, x: i64)
    requires
        plan_spec(plan, p, s, now),
        ids_distinct(s),
        0 <= a < plan.roots@.len(),
    ensures
        plan.roots@[a].keep_daily@.contains(x) ==> exists|i: int| 0 <= i < s.len() && s[i].id == x && bucket_winner(p, s, now, plan.roots@[a].root@, 1, i),
        plan.roots@[a].keep_weekly@.contains(x) ==> exists|i: int| 0 <= i < s.len() && s[i].id == x && bucket_winner(p, s, now, plan.roots@[a].root@, 2, i),
        plan.roots@[a].keep_recent@.contains(x) ==> (exists|i: int| 0 <= i < s.len() && s[i].id == x && selected(p, s, now, plan.roots@[a].root@, 0, i))
            || (latest_rescued(p, s, now, plan.roots@[a].root@) && s[latest_idx(s, plan.roots@[a].root@, s.len() as int)].id == x),
        !(plan.roots@[a].keep_recent@.contains(x) && plan.roots@[a].keep_daily@.contains(x)),
        !(plan.roots@[a].keep_recent@.contains(x) && plan.roots@[a].keep_weekly@.contains(x)),
        !(plan.roots@[a].keep_daily@.contains(x) && plan.roots@[a].keep_weekly@.contains(x)),
{
    let rp = plan.roots@[a];
    let r = rp.root@;
    let n = s.len() as int;
    assert(root_plan_spec(rp, p, s, now, r));
    let k = latest_idx(s, r, n);
    let base = ids_sel(p, s, now, r, 0, n);
    lemma_multiset_contains_seq(rp.keep_daily@, ids_sel(p, s, now, r, 1, n), x);
    lemma_multiset_contains_seq(rp.keep_weekly@, ids_sel(p, s, now, r, 2, n), x);
    if latest_rescued(p, s, now, r) {
        lemma_multiset_contains_seq(rp.keep_recent@, base.push(s[k].id), x);
        lemma_push_contains(base, s[k].id, x);
    } else {
        lemma_multiset_contains_seq(rp.keep_recent@, base, x);
    }
    lemma_ids_sel_contains(p, s, now, r, 0, n, x);
    lemma_ids_sel_contains(p, s, now, r, 1, n, x);
    lemma_ids_sel_contains(p, s, now, r, 2, n, x);
}

/// Law: the latest snapshot of every root is in no root's removal list,
/// so `remove_ids` over the whole plan never holds it.
pub proof fn law_latest_is_never_removed(plan: PrunePlan, p: RetentionPolicy, s: Seq<SnapshotRecord>, now: int, a: int)
    requires
        plan_spec(plan, p, s, now),
        ids_distinct(s),
        0 <= a < plan.roots@.len(),
    ensures
        !plan_remove_set(plan.roots@).contains(s[latest_idx(s, plan.roots@[a].root@, s.len() as int)].id),
{
    law_latest_snapshot_is_kept(plan, p, s, now, a);
    law_keep_and_remove_partition_all(plan, p, s, now);
    assert(plan_keep_set(plan.roots@).contains(s[latest_idx(s, plan.roots@[a].root@, s.len() as int)].id));
}

/// Law: with distinct ids, a snapshot of root `a` is in the recent list
/// exactly when it is in the recent tier or is the root's latest snapshot
/// and expired; in the daily (weekly) list exactly when it is the latest
/// of its day (week) bucket in the daily (weekly) tier; and in the removal
/// list exactly when it is in none of the three.
pub proof fn law_tier_membership(plan: PrunePlan, p: RetentionPolicy, s: Seq<SnapshotRecord>, now: int, a: int, i: int)
    requires
        plan_spec(plan, p, s, now),
        ids_distinct(s),
        0 <= a < plan.roots@.len(),
        in_root(s, plan.roots@[a].root@, i),
    ensures
        plan.roots@[a].keep_recent@.contains(s[i].id) <==> (tier(p, now, s[i].created_at_ms as int) == 0
            || (i == latest_idx(s, plan.roots@[a].root@, s.len() as int) && tier(p, now, s[i].created_at_ms as int) == 3)),
        plan.roots@[a].keep_daily@.contains(s[i].id) <==> bucket_winner(p, s, now, plan.roots@[a].root@, 1, i),
        plan.roots@[a].keep_weekly@.contains(s[i].id) <==> bucket_winner(p, s, now, plan.roots@[a].root@, 2, i),
        plan.roots@[a].remove@.contains(s[i].id) <==> !(plan.roots@[a].keep_recent@.contains(s[i].id)
            || plan.roots@[a].keep_daily@.contains(s[i].id) || plan.roots@[a].keep_weekly@.contains(s[i].id)),
{
    let rp = plan.roots@[a];
    let r = rp.root@;
    let n = s.len() as int;
    assert(root_plan_spec(rp, p, s, now, r));
    let k = latest_idx(s, r, n);
    lemma_latest_idx(s, r, n);
    lemma_latest_is_max(s, r, n);
    let x = s[i].id;
    lemma_keep_kinds(plan, p, s, now, a, x);
    lemma_sel_member(p, s, now, r, 0, i);
    lemma_sel_member(p, s, now, r, 1, i);
    lemma_sel_member(p, s, now, r, 2, i);
    lemma_multiset_contains_seq(rp.keep_daily@, ids_sel(p, s, now, r, 1, n), x);
    lemma_multiset_contains_seq(rp.keep_weekly@, ids_sel(p, s, now, r, 2, n), x);
    let base = ids_sel(p, s, now, r, 0, n);
    // The latest snapshot needs a rescue exactly when it is expired.
    lemma_sel_member(p, s, now, r, 0, k);
    lemma_sel_member(p, s, now, r, 1, k);
    lemma_sel_member(p, s, now, r, 2, k);
    let tk = tier(p, now, s[k].created_at_ms as int);
    if tk == 1 || tk == 2 {
        assert(bucket_winner(p, s, now, r, tk, k));
    }
    assert(latest_rescued(p, s, now, r) <==> tk == 3);
    if latest_rescued(p, s, now, r) {
        lemma_multiset_contains_seq(rp.keep_recent@, base.push(s[k].id), x);
        lemma_push_contains(base, s[k].id, x);
    } else {
        lemma_multiset_contains_seq(rp.keep_recent@, base, x);
    }
    if s[k].id == x {
        assert(k == i);
    }
    law_keep_and_remove_partition_the_root(plan, p, s, now, a);
    assert(root_ids(s, r).contains(x));
    assert(root_keep_set(rp).contains(x) <==> (rp.keep_recent@.contains(x) || rp.keep_daily@.contains(x) || rp.keep_weekly@.contains(x)));
}

/// The ids of the snapshots of the first `m` roots of a plan.
pub open spec fn ids_of_roots(s: Seq<SnapshotRecord>, roots: Seq<RootPrunePlan>, m: int) -> Set<i64> {
    Set::new(|x: i64| exists|b: int| 0 <= b < m && root_ids(s, roots[b].root@).contains(x))
}

proof fn lemma_root_count(plan: PrunePlan, p: RetentionPolicy, s: Seq<SnapshotRecord>, now: int, a: int)
    requires
        plan_spec(plan, p, s, now),
        ids_distinct(s),
        0 <= a < plan.roots@.len(),
    ensures
        root_ids(s, plan.roots@[a].root@).finite(),
        plan.roots@[a].snapshot_count == root_ids(s, plan.roots@[a].root@).len(),
{
    let rp = plan.roots@[a];
    let r = rp.root@;
    let n = s.len() as int;
    assert(root_plan_spec(rp, p, s, now, r));
    let sel = ids_sel(p, s, now, r, 3, n);
    lemma_ids_sel_no_dup(p, s, now, r, 3, n);
    assert forall|x: i64| sel.to_set().contains(x) <==> root_ids(s, r).contains(x) by {
        lemma_ids_sel_contains(p, s, now, r, 3, n, x);
        if sel.contains(x) {
            let i = choose|i: int| 0 <= i < n && selected(p, s, now, r, 3, i) && s[i].id == x;
            assert(in_root(s, r, i));
        }
        if root_ids(s, r).contains(x) {
            let i = choose|i: int| in_root(s, r, i) && s[i].id == x;
            assert(selected(p, s, now, r, 3, i));
        }
    }
    assert(sel.to_set() =~= root_ids(s, r));
    sel.unique_seq_to_set();
}

proof fn lemma_count_prefix(plan: PrunePlan, p: RetentionPolicy, s: Seq<SnapshotRecord>, now: int, m: int)
    requires
        plan_spec(plan, p, s, now),
        ids_distinct(s),
        0 <= m <= plan.roots@.len(),
    ensures
        ids_of_roots(s, plan.roots@, m).subset_of(snapshot_ids(s).to_set()),
        ids_of_roots(s, plan.roots@, m).finite(),
        count_sum(plan.roots@.subrange(0, m)) == ids_of_roots(s, plan.roots@, m).len(),
    decreases m,
{
    let roots = plan.roots@;
    let all = snapshot_ids(s).to_set();
    if m == 0 {
        assert(ids_of_roots(s, roots, 0) =~= Set::<i64>::empty());
        assert(roots.subrange(0, 0) =~= Seq::<RootPrunePlan>::empty());
    } else {
        let q = m - 1;
        lemma_count_prefix(plan, p, s, now, q);
        let prev = ids_of_roots(s, roots, q);
        let cur = root_ids(s, roots[q].root@);
        lemma_root_count(plan, p, s, now, q);
        assert forall|x: i64| !(prev.contains(x) && cur.contains(x)) by {
            if prev.contains(x) && cur.contains(x) {
                let b = choose|b: int| 0 <= b < q && root_ids(s, roots[b].root@).contains(x);
                let i = choose|i: int| in_root(s, roots[b].root@, i) && s[i].id == x;
                let j = choose|j: int| in_root(s, roots[q].root@, j) && s[j].id == x;
                assert(i == j);
                lemma_seq_lt_irreflexive(roots[b].root@);
            }
        }
        assert(ids_of_roots(s, roots, m) =~= prev.union(cur));
        assert forall|x: i64| cur.contains(x) implies all.contains(x) by {
            let i = choose|i: int| in_root(s, roots[q].root@, i) && s[i].id == x;
            assert(snapshot_ids(s)[i] == x);
        }
        vstd::set_lib::lemma_set_disjoint_lens(prev, cur);
        assert(roots.subrange(0, m).drop_last() =~= roots.subrange(0, q));
    }
}

/// Law: with distinct ids, the per-root snapshot counts add up to the
/// number of snapshots, so `total_snapshots` is that number.
pub proof fn law_counts_add_up(plan: PrunePlan, p: RetentionPolicy, s: Seq<SnapshotRecord>, now: int)
    requires
        plan_spec(plan, p, s, now),
        ids_distinct(s),
    ensures
        count_sum(plan.roots@) == s.len(),
{
    let roots = plan.roots@;
    let all = snapshot_ids(s).to_set();
    let m = roots.len() as int;
    lemma_count_prefix(plan, p, s, now, m);
    assert(roots.subrange(0, m) =~= roots);
    assert forall|x: i64| all.contains(x) implies ids_of_roots(s, roots, m).contains(x) by {
        let i = choose|i: int| 0 <= i < snapshot_ids(s).len() && snapshot_ids(s)[i] == x;
        let r = s[i].root_path@;
        assert(root_set(s).contains(r));
        assert(plan_root_set(roots).contains(r));
        let b = choose|b: int| 0 <= b < roots.len() && roots[b].root@ == r;
        assert(in_root(s, r, i));
        assert(root_ids(s, roots[b].root@).contains(x));
    }
    assert(ids_of_roots(s, roots, m) =~= all);
    assert(snapshot_ids(s).no_duplicates());
    snapshot_ids(s).unique_seq_to_set();
}

/// Law: weekly buckets are UTC weeks of day numbers: a snapshot in the
/// weekly tier is kept when no later weekly-tier snapshot of its root has
/// the same UTC day number divided by 7 (toward zero). So two weekly-tier
/// snapshots whose day numbers fall in different 7-day windows never
/// displace each other.
pub proof fn law_each_utc_week_keeps_its_latest(plan: PrunePlan, p: RetentionPolicy, s: Seq<SnapshotRecord>, now: int, a: int, i: int)
    requires
        plan_spec(plan, p, s, now),
        ids_distinct(s),
        0 <= a < plan.roots@.len(),
        in_root(s, plan.roots@[a].root@, i),
        tier(p, now, s[i].created_at_ms as int) == 2,
        forall|j: int| #![trigger s[j]]
            in_root(s, plan.roots@[a].root@, j) && j != i && tier(p, now, s[j].created_at_ms as int) == 2
            && ({
                let dj = s[j].created_at_ms / 86_400_000;
                let di = s[i].created_at_ms / 86_400_000;
                (if dj >= 0 { dj / 7 } else { -((-dj) / 7) }) == (if di >= 0 { di / 7 } else { -((-di) / 7) })
            })
            ==> !later(s, j, i),
    ensures
        plan.roots@[a].keep_weekly@.contains(s[i].id),
{
    law_tier_membership(plan, p, s, now, a, i);
    assert(bucket_winner(p, s, now, plan.roots@[a].root@, 2, i));
}

} // verus!
