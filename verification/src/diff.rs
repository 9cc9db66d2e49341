//! Diff engine: what changed between two snapshots at a given scope level.
//!
//! Attribution model: a diff lists only the **direct children** of the scope
//! directory. `diff` uses the tracked root as scope (top-level attribution);
//! `inspect <path>` uses the target as scope (next-level drill-down). This
//! keeps the tool a "what got big" debugger instead of a dump of every
//! delta. The children rows come from the snapshot database; everything
//! from there on is decided here.
use vstd::prelude::*;
use crate::error::WhyBigError;
use crate::order::{seq_lt, str_lt, lemma_seq_lt_irreflexive, lemma_seq_lt_transitive, lemma_seq_lt_total};
use crate::pathutil::{components, direct_child, is_direct_child, paths_equal};
use crate::since::{ago_text, human_ago, DurationSecs};
use crate::storage::models::{EntryRecord, SnapshotRecord, to_u64_clamp};

verus! {

/// Whether a directory appeared, disappeared or merely changed size.
#[derive(Debug, Clone, Copy, PartialEq, Eq, Structural)]
pub enum DiffState {
    /// Present in after, absent in before (treated as before = 0).
    Added,
    /// Present in before, absent in after (treated as after = 0).
    Removed,
    /// Present in both (may have grown or shrunk).
    Changed,
}

/// One directory's change between two snapshots.
#[derive(Debug, Clone, PartialEq, Eq)]
pub struct DiffEntry {
    /// Full normalized path (the storage key).
    pub path: String,
    pub before_size: u64,
    pub after_size: u64,
    /// `after - before`, signed 128-bit: never overflows for `u64` pairs.
    pub delta: i128,
    pub state: DiffState,
}

/// Signed delta on `u64` sizes — never overflows (i128 arithmetic).
pub fn signed_delta(before: u64, after: u64) -> (d: i128)
    ensures
        d == after - before,
{
    after as i128 - before as i128
}

/// `|x|`.
pub open spec fn abs_int(x: int) -> int {
    if x < 0 { -x } else { x }
}

/// `a` is listed before `b`: bigger change first, then path order.
pub open spec fn entry_before(a: DiffEntry, b: DiffEntry) -> bool {
    abs_int(a.delta as int) > abs_int(b.delta as int)
        || (abs_int(a.delta as int) == abs_int(b.delta as int) && seq_lt(a.path@, b.path@))
}

/// Size of the last row for `p` among the first `n` rows (later rows win).
pub open spec fn last_size(v: Seq<EntryRecord>, p: Seq<char>, n: int) -> Option<u64>
    decreases n,
{
    if n <= 0 {
        None
    } else if v[n - 1].path@ == p {
        Some(v[n - 1].size)
    } else {
        last_size(v, p, n - 1)
    }
}

/// The size a side contributes (0 when absent).
pub open spec fn size_or_zero(o: Option<u64>) -> int {
    match o { Some(x) => x as int, None => 0 }
}

/// The state of a path given its presence on each side.
pub open spec fn state_of(b: Option<u64>, a: Option<u64>) -> DiffState {
    if b is None { DiffState::Added } else if a is None { DiffState::Removed } else { DiffState::Changed }
}

/// Does the merged diff list `p`?
pub open spec fn merged_has(before: Seq<EntryRecord>, after: Seq<EntryRecord>, scope: Seq<char>, p: Seq<char>) -> bool {
    let b = last_size(before, p, before.len() as int);
    let a = last_size(after, p, after.len() as int);
    &&& (b is Some || a is Some)
    &&& direct_child(p, scope)
    &&& size_or_zero(a) - size_or_zero(b) != 0
}

/// The row the merged diff holds for its path.
pub open spec fn entry_matches(e: DiffEntry, before: Seq<EntryRecord>, after: Seq<EntryRecord>) -> bool {
    let b = last_size(before, e.path@, before.len() as int);
    let a = last_size(after, e.path@, after.len() as int);
    &&& e.before_size == size_or_zero(b)
    &&& e.after_size == size_or_zero(a)
    &&& e.delta == size_or_zero(a) - size_or_zero(b)
    &&& e.state == state_of(b, a)
}

/// Rows listed in order (strictly: no path twice).
pub open spec fn entries_ordered(r: Seq<DiffEntry>) -> bool {
    forall|i: int, j: int| 0 <= i < j < r.len() ==> entry_before(r[i], r[j])
}

/// The exact merged diff of two child listings at `scope`.
pub open spec fn merge_spec(r: Seq<DiffEntry>, before: Seq<EntryRecord>, after: Seq<EntryRecord>, scope: Seq<char>) -> bool {
    &&& entries_ordered(r)
    &&& forall|i: int| 0 <= i < r.len() ==> entry_matches(#[trigger] r[i], before, after)
    &&& forall|i: int| 0 <= i < r.len() ==> merged_has(before, after, scope, (#[trigger] r[i]).path@)
    &&& forall|p: Seq<char>| merged_has(before, after, scope, p) ==> exists|i: int| 0 <= i < r.len() && (#[trigger] r[i]).path@ == p
}

proof fn lemma_entry_before_transitive(a: DiffEntry, b: DiffEntry, c: DiffEntry)
    requires
        entry_before(a, b),
        entry_before(b, c),
    ensures
        entry_before(a, c),
{
    if abs_int(a.delta as int) == abs_int(b.delta as int) && abs_int(b.delta as int) == abs_int(c.delta as int) {
        lemma_seq_lt_transitive(a.path@, b.path@, c.path@);
    }
}

proof fn lemma_entry_before_total(a: DiffEntry, b: DiffEntry)
    requires
        a.path@ != b.path@,
    ensures
        entry_before(a, b) || entry_before(b, a),
{
    lemma_seq_lt_total(a.path@, b.path@);
}

proof fn lemma_entry_before_irreflexive(a: DiffEntry)
    ensures
        !entry_before(a, a),
{
    lemma_seq_lt_irreflexive(a.path@);
}

fn last_size_exec(v: &Vec<EntryRecord>, p: &String) -> (r: Option<u64>)
    ensures
        r == last_size(v@, p@, v.len() as int),
{
    let mut i: usize = v.len();
    while i > 0
        invariant
            i <= v.len(),
            last_size(v@, p@, v.len() as int) == last_size(v@, p@, i as int),
        decreases i,
    {
        if v[i - 1].path == *p {
            return Some(v[i - 1].size);
        }
        i = i - 1;
    }
    None
}

/// `x` goes before `y` in merged order.
fn entry_before_exec(x: &DiffEntry, y: &DiffEntry) -> (r: bool)
    requires
        -(u64::MAX as int) <= x.delta <= u64::MAX,
        -(u64::MAX as int) <= y.delta <= u64::MAX,
    ensures
        r == entry_before(*x, *y),
{
    let ax: i128 = if x.delta < 0 { -x.delta } else { x.delta };
    let ay: i128 = if y.delta < 0 { -y.delta } else { y.delta };
    ax > ay || (ax == ay && str_lt(x.path.as_str(), y.path.as_str()))
}

/// Insert `e` into an ordered list where no row shares its path.
fn insert_ordered(r: &mut Vec<DiffEntry>, e: DiffEntry)
    requires
        entries_ordered(old(r)@),
        forall|i: int| 0 <= i < old(r)@.len() ==> (#[trigger] old(r)@[i]).path@ != e.path@,
        forall|i: int| 0 <= i < old(r)@.len() ==> -(u64::MAX as int) <= (#[trigger] old(r)@[i]).delta <= u64::MAX,
        -(u64::MAX as int) <= e.delta <= u64::MAX,
    ensures
        entries_ordered(final(r)@),
        final(r)@.len() == old(r)@.len() + 1,
        forall|x: DiffEntry| final(r)@.contains(x) <==> (old(r)@.contains(x) || x == e),
{
    let mut p: usize = 0;
    let ghost orig = r@;
    while p < r.len() && entry_before_exec(&r[p], &e)
        invariant
            p <= r.len(),
            r@ == orig,
            -(u64::MAX as int) <= e.delta <= u64::MAX,
            forall|i: int| 0 <= i < r@.len() ==> -(u64::MAX as int) <= (#[trigger] r@[i]).delta <= u64::MAX,
            forall|q: int| 0 <= q < p ==> entry_before(#[trigger] r@[q], e),
        decreases r.len() - p,
    {
        p = p + 1;
    }
    let ghost before = r@;
    proof {
        if p < before.len() {
            lemma_entry_before_total(before[p as int], e);
        }
    }
    r.insert(p, e);
    proof {
        assert(r@ =~= before.insert(p as int, e));
        assert forall|a: int, b: int| 0 <= a < b < r@.len() implies entry_before(r@[a], r@[b]) by {
            if b < p {
                assert(r@[a] == before[a] && r@[b] == before[b]);
            } else if a < p && b == p {
            } else if a < p && b > p {
                assert(r@[a] == before[a] && r@[b] == before[b - 1]);
            } else if a == p {
                assert(r@[b] == before[b - 1]);
                if b - 1 > p {
                    lemma_entry_before_transitive(e, before[p as int], before[b - 1]);
                }
            } else {
                assert(r@[a] == before[a - 1] && r@[b] == before[b - 1]);
            }
        }
        assert forall|x: DiffEntry| r@.contains(x) <==> (before.contains(x) || x == e) by {
            if r@.contains(x) {
                let k = choose|k: int| 0 <= k < r@.len() && r@[k] == x;
                if k < p { assert(before[k] == x); } else if k > p { assert(before[k - 1] == x); }
            }
            if before.contains(x) {
                let k = choose|k: int| 0 <= k < before.len() && before[k] == x;
                if k < p { assert(r@[k] == x); } else { assert(r@[k + 1] == x); }
            }
            if x == e { assert(r@[p as int] == x); }
        }
        assert(before == old(r)@);
        assert forall|x: DiffEntry| #[trigger] r@.contains(x) <==> (old(r)@.contains(x) || x == e) by {
            assert(r@.contains(x) <==> (before.contains(x) || x == e));
        }
    }
}


proof fn lemma_last_size_some(v: Seq<EntryRecord>, p: Seq<char>, n: int)
    requires
        0 <= n <= v.len(),
    ensures
        last_size(v, p, n) is Some <==> exists|i: int| 0 <= i < n && (#[trigger] v[i]).path@ == p,
    decreases n,
{
    if n > 0 {
        lemma_last_size_some(v, p, n - 1);
        if v[n - 1].path@ != p {
            if exists|i: int| 0 <= i < n && (#[trigger] v[i]).path@ == p {
                let i = choose|i: int| 0 <= i < n && (#[trigger] v[i]).path@ == p;
                assert(i < n - 1);
            }
        }
    }
}

/// The views of the seen paths, as a set.
pub open spec fn seen_set(v: Seq<String>) -> Set<Seq<char>> {
    Set::new(|p: Seq<char>| exists|i: int| 0 <= i < v.len() && (#[trigger] v[i])@ == p)
}

fn seen_contains(v: &Vec<String>, p: &String) -> (b: bool)
    ensures
        b == seen_set(v@).contains(p@),
{
    let mut i: usize = 0;
    while i < v.len()
        invariant
            i <= v.len(),
            forall|j: int| 0 <= j < i ==> (#[trigger] v@[j])@ != p@,
        decreases v.len() - i,
    {
        if v[i] == *p {
            assert(v@[i as int]@ == p@);
            return true;
        }
        i = i + 1;
    }
    false
}

/// Invariant of the merge loop over candidate paths.
pub open spec fn merge_progress(r: Seq<DiffEntry>, seen: Seq<String>, before: Seq<EntryRecord>, after: Seq<EntryRecord>, scope: Seq<char>) -> bool {
    &&& entries_ordered(r)
    &&& forall|i: int| 0 <= i < r.len() ==> entry_matches(#[trigger] r[i], before, after)
    &&& forall|i: int| 0 <= i < r.len() ==> merged_has(before, after, scope, (#[trigger] r[i]).path@)
    &&& forall|i: int| 0 <= i < r.len() ==> seen_set(seen).contains((#[trigger] r[i]).path@)
    &&& forall|p: Seq<char>| #[trigger] seen_set(seen).contains(p) && merged_has(before, after, scope, p)
        ==> exists|i: int| 0 <= i < r.len() && (#[trigger] r[i]).path@ == p
}

/// Consider one candidate path.
fn merge_one(r: &mut Vec<DiffEntry>, seen: &mut Vec<String>, before: &Vec<EntryRecord>, after: &Vec<EntryRecord>, scope: &str, p: &String)
    requires
        merge_progress(old(r)@, old(seen)@, before@, after@, scope@),
    ensures
        merge_progress(final(r)@, final(seen)@, before@, after@, scope@),
        seen_set(final(seen)@) == seen_set(old(seen)@).insert(p@),
        final(seen)@.len() <= old(seen)@.len() + 1,
        final(r)@.len() - old(r)@.len() == final(seen)@.len() - old(seen)@.len()
            || (final(r)@.len() == old(r)@.len() && final(seen)@.len() == old(seen)@.len() + 1),
{
    if seen_contains(seen, p) {
        assert(seen_set(old(seen)@).insert(p@) =~= seen_set(old(seen)@));
        return;
    }
    let ghost seen0 = seen@;
    let ghost r0 = r@;
    seen.push(p.clone());
    assert(seen_set(seen@) =~= seen_set(seen0).insert(p@)) by {
        assert(seen@[seen0.len() as int]@ == p@);
        assert forall|q: Seq<char>| seen_set(seen@).contains(q) implies seen_set(seen0).insert(p@).contains(q) by {
            let i = choose|i: int| 0 <= i < seen@.len() && (#[trigger] seen@[i])@ == q;
            if i < seen0.len() { assert(seen0[i]@ == q); }
        }
        assert forall|q: Seq<char>| seen_set(seen0).contains(q) implies seen_set(seen@).contains(q) by {
            let i = choose|i: int| 0 <= i < seen0.len() && (#[trigger] seen0[i])@ == q;
            assert(seen@[i]@ == q);
        }
    }
    let b = last_size_exec(before, p);
    let a = last_size_exec(after, p);
    let bs: u64 = match b { Some(x) => x, None => 0 };
    let as_: u64 = match a { Some(x) => x, None => 0 };
    let delta = signed_delta(bs, as_);
    let keep = (b.is_some() || a.is_some()) && is_direct_child(p.as_str(), scope) && delta != 0;
    assert(keep == merged_has(before@, after@, scope@, p@));
    if keep {
        let state = if b.is_none() {
            DiffState::Added
        } else if a.is_none() {
            DiffState::Removed
        } else {
            DiffState::Changed
        };
        let e = DiffEntry { path: p.clone(), before_size: bs, after_size: as_, delta, state };
        assert(entry_matches(e, before@, after@));
        assert forall|i: int| 0 <= i < r@.len() implies (#[trigger] r@[i]).path@ != e.path@ by {
            assert(seen_set(seen0).contains(r@[i].path@));
        }
        assert forall|i: int| 0 <= i < r@.len() implies -(u64::MAX as int) <= (#[trigger] r@[i]).delta <= u64::MAX by {
            assert(entry_matches(r@[i], before@, after@));
        }
        insert_ordered(r, e);
        assert forall|i: int| 0 <= i < r@.len() implies entry_matches(#[trigger] r@[i], before@, after@)
            && merged_has(before@, after@, scope@, r@[i].path@) && seen_set(seen@).contains(r@[i].path@) by {
            assert(r@.contains(r@[i]));
            if r@[i] != e {
                assert(r0.contains(r@[i]));
                let k = choose|k: int| 0 <= k < r0.len() && r0[k] == r@[i];
                assert(entry_matches(r0[k], before@, after@));
                assert(seen_set(seen0).contains(r0[k].path@));
            }
        }
        assert forall|q: Seq<char>| #[trigger] seen_set(seen@).contains(q) && merged_has(before@, after@, scope@, q)
            implies exists|i: int| 0 <= i < r@.len() && (#[trigger] r@[i]).path@ == q by {
            if q == p@ {
                assert(r@.contains(e));
                let k = choose|k: int| 0 <= k < r@.len() && r@[k] == e;
                assert(r@[k].path@ == q);
            } else {
                assert(seen_set(seen0).contains(q));
                let k = choose|k: int| 0 <= k < r0.len() && (#[trigger] r0[k]).path@ == q;
                assert(r0.contains(r0[k]));
                assert(r@.contains(r0[k]));
                let j = choose|j: int| 0 <= j < r@.len() && r@[j] == r0[k];
                assert(r@[j].path@ == q);
            }
        }
    } else {
        assert forall|i: int| 0 <= i < r@.len() implies seen_set(seen@).contains((#[trigger] r@[i]).path@) by {
            assert(seen_set(seen0).contains(r@[i].path@));
        }
        assert forall|q: Seq<char>| #[trigger] seen_set(seen@).contains(q) && merged_has(before@, after@, scope@, q)
            implies exists|i: int| 0 <= i < r@.len() && (#[trigger] r@[i]).path@ == q by {
            assert(q != p@);
            assert(seen_set(seen0).contains(q));
        }
    }
}

/// Merge the **direct children** of `scope` in two snapshots into
/// per-directory deltas: a directory missing on one side counts as 0 there,
/// zero deltas are dropped, and the rows come biggest change first (ties by
/// path). `before` and `after` are the stored child rows of each snapshot.
pub fn merge_children_deltas(before: &Vec<EntryRecord>, after: &Vec<EntryRecord>, scope: &str) -> (r: Vec<DiffEntry>)
    ensures
        merge_spec(r@, before@, after@, scope@),
        r@.len() <= before@.len() + after@.len(),
{
    let mut r: Vec<DiffEntry> = Vec::new();
    let mut seen: Vec<String> = Vec::new();
    assert(seen_set(seen@) =~= Set::empty());
    let mut i: usize = 0;
    while i < before.len()
        invariant
            i <= before.len(),
            merge_progress(r@, seen@, before@, after@, scope@),
            forall|k: int| 0 <= k < i ==> seen_set(seen@).contains((#[trigger] before@[k]).path@),
            r@.len() <= seen@.len() <= i,
        decreases before.len() - i,
    {
        merge_one(&mut r, &mut seen, before, after, scope, &before[i].path);
        i = i + 1;
    }
    let mut j: usize = 0;
    while j < after.len()
        invariant
            j <= after.len(),
            merge_progress(r@, seen@, before@, after@, scope@),
            forall|k: int| 0 <= k < before.len() ==> seen_set(seen@).contains((#[trigger] before@[k]).path@),
            forall|k: int| 0 <= k < j ==> seen_set(seen@).contains((#[trigger] after@[k]).path@),
            r@.len() <= seen@.len() <= before@.len() + j,
        decreases after.len() - j,
    {
        merge_one(&mut r, &mut seen, before, after, scope, &after[j].path);
        j = j + 1;
    }
    assert forall|q: Seq<char>| merged_has(before@, after@, scope@, q) implies exists|i: int| 0 <= i < r@.len() && (#[trigger] r@[i]).path@ == q by {
        lemma_last_size_some(before@, q, before.len() as int);
        lemma_last_size_some(after@, q, after.len() as int);
        if last_size(before@, q, before.len() as int) is Some {
            let k = choose|k: int| 0 <= k < before.len() && (#[trigger] before@[k]).path@ == q;
            assert(seen_set(seen@).contains(before@[k].path@));
        } else {
            let k = choose|k: int| 0 <= k < after.len() && (#[trigger] after@[k]).path@ == q;
            assert(seen_set(seen@).contains(after@[k].path@));
        }
    }
    r
}

/// How the two snapshots to compare are chosen.
#[derive(Debug, Clone, Copy)]
pub enum DiffSelection {
    /// Latest two snapshots of the most recently tracked root.
    Default,
    /// Explicit ids (validated to share a root by [`select_pair`]).
    Explicit { from: i64, to: i64 },
    /// The latest snapshot against the one at or before `latest - duration`.
    Since { duration: DurationSecs },
}

/// How a `--since` window was resolved.
#[derive(Debug, Clone, Copy, PartialEq, Eq)]
pub struct SinceInfo {
    /// The requested window, in seconds.
    pub requested_seconds: i64,
    /// `latest.created_at - requested` (UTC ms): the ideal start.
    pub requested_target_ms: i64,
    /// `created_at` of the snapshot actually used as `before`.
    pub effective_before_ms: i64,
    /// No snapshot was old enough: the root's earliest one was used.
    pub used_earliest: bool,
}

impl SinceInfo {
    /// "7 days ago" wording of the requested window.
    pub fn requested_human(&self) -> (s: String)
        ensures
            s@ == ago_text(self.requested_seconds as int),
    {
        human_ago(self.requested_seconds)
    }
}

/// The chosen `(before, after)` pair, with the `--since` resolution if any.
#[derive(Debug, Clone)]
pub struct SelectedPair {
    pub before: SnapshotRecord,
    pub after: SnapshotRecord,
    /// Present only when [`DiffSelection::Since`] chose the pair.
    pub since: Option<SinceInfo>,
}

/// Snapshot ids strictly increase along the list (the database's order).
pub open spec fn ids_ascending(s: Seq<SnapshotRecord>) -> bool {
    forall|i: int, j: int| 0 <= i < j < s.len() ==> s[i].id < s[j].id
}

/// `s[k]` is the snapshot with id `id`.
pub open spec fn has_id(s: Seq<SnapshotRecord>, id: i64, k: int) -> bool {
    0 <= k < s.len() && s[k].id == id
}

/// `s[k]` is the newest snapshot of root `r` among the first `n`.
pub open spec fn newest_before(s: Seq<SnapshotRecord>, r: Seq<char>, n: int, k: int) -> bool {
    &&& 0 <= k < n <= s.len()
    &&& s[k].root_path@ == r
    &&& forall|j: int| k < j < n ==> (#[trigger] s[j]).root_path@ != r
}

/// `s[k]` is the oldest (smallest id) snapshot of root `r`.
pub open spec fn oldest_in_root(s: Seq<SnapshotRecord>, r: Seq<char>, k: int) -> bool {
    &&& 0 <= k < s.len()
    &&& s[k].root_path@ == r
    &&& forall|j: int| 0 <= j < k ==> (#[trigger] s[j]).root_path@ != r
}

/// `s[k]` is the root's snapshot taken at or before `t` with the latest
/// `created_at`, ties going to the smallest id.
pub open spec fn at_or_before(s: Seq<SnapshotRecord>, r: Seq<char>, t: int, k: int) -> bool {
    &&& 0 <= k < s.len()
    &&& s[k].root_path@ == r
    &&& s[k].created_at_ms <= t
    &&& forall|j: int|
        0 <= j < s.len() && (#[trigger] s[j]).root_path@ == r && s[j].created_at_ms <= t ==>
            s[j].created_at_ms < s[k].created_at_ms || (s[j].created_at_ms == s[k].created_at_ms && k <= j)
}

/// `d` in milliseconds, as [`DurationSecs::as_ms`] computes it.
pub open spec fn duration_ms(d: DurationSecs) -> int {
    if d.0 * 1000 > i64::MAX { i64::MAX as int } else if d.0 * 1000 < i64::MIN { i64::MIN as int } else { d.0 * 1000 }
}

/// `latest - d` in milliseconds, saturating at the `i64` bounds.
pub open spec fn since_target(latest_ms: int, d: DurationSecs) -> int {
    let t = latest_ms - duration_ms(d);
    if t < i64::MIN { i64::MIN as int } else if t > i64::MAX { i64::MAX as int } else { t }
}

/// The pair is `(s[b], s[a])` with the given `--since` record.
pub open spec fn pair_is(p: SelectedPair, s: Seq<SnapshotRecord>, b: int, a: int, since: Option<SinceInfo>) -> bool {
    p.before == s[b] && p.after == s[a] && p.since == since
}

/// What a `--since` selection gives once `before` is `s[k]`.
pub open spec fn since_outcome(s: Seq<SnapshotRecord>, r: Result<SelectedPair, WhyBigError>, k: int, d: DurationSecs, t: int, used_earliest: bool) -> bool {
    let last = s.len() - 1;
    if k == last {
        r == Err::<SelectedPair, WhyBigError>(WhyBigError::NoEarlierSnapshot { root: s[last].root_path })
    } else {
        &&& r is Ok
        &&& pair_is(r->Ok_0, s, k, last, Some(SinceInfo {
                requested_seconds: d.0,
                requested_target_ms: t as i64,
                effective_before_ms: s[k].created_at_ms,
                used_earliest,
            }))
    }
}

/// The exact outcome of [`select_pair`] on the snapshot list `s`.
pub open spec fn selection_spec(s: Seq<SnapshotRecord>, sel: DiffSelection, r: Result<SelectedPair, WhyBigError>) -> bool {
    match sel {
        DiffSelection::Explicit { from, to } => {
            if !(exists|k: int| has_id(s, from, k)) {
                r == Err::<SelectedPair, WhyBigError>(WhyBigError::SnapshotNotFound(from))
            } else if !(exists|k: int| has_id(s, to, k)) {
                r == Err::<SelectedPair, WhyBigError>(WhyBigError::SnapshotNotFound(to))
            } else {
                forall|b: int, a: int| #![trigger has_id(s, from, b), has_id(s, to, a)] has_id(s, from, b) && has_id(s, to, a) ==>
                    if components(s[b].root_path@) == components(s[a].root_path@) {
                        r is Ok && pair_is(r->Ok_0, s, b, a, None)
                    } else {
                        r == Err::<SelectedPair, WhyBigError>(WhyBigError::CrossRootDiff)
                    }
            }
        },
        DiffSelection::Default => {
            if s.len() == 0 {
                r == Err::<SelectedPair, WhyBigError>(WhyBigError::NoSnapshots)
            } else {
                let last = s.len() - 1;
                let root = s[last].root_path;
                if exists|k: int| newest_before(s, root@, last, k) {
                    &&& r is Ok
                    &&& forall|k: int| newest_before(s, root@, last, k) ==> pair_is(r->Ok_0, s, k, last, None)
                } else {
                    r == Err::<SelectedPair, WhyBigError>(WhyBigError::NotEnoughSnapshots { root, count: 1 })
                }
            }
        },
        DiffSelection::Since { duration } => {
            if s.len() == 0 {
                r == Err::<SelectedPair, WhyBigError>(WhyBigError::NoSnapshots)
            } else {
                let last = s.len() - 1;
                let root = s[last].root_path@;
                let t = since_target(s[last].created_at_ms as int, duration);
                if exists|k: int| at_or_before(s, root, t, k) {
                    forall|k: int| at_or_before(s, root, t, k) ==> since_outcome(s, r, k, duration, t, false)
                } else {
                    forall|k: int| oldest_in_root(s, root, k) ==> since_outcome(s, r, k, duration, t, true)
                }
            }
        },
    }
}

fn find_id(s: &Vec<SnapshotRecord>, id: i64) -> (k: Option<usize>)
    requires
        ids_ascending(s@),
    ensures
        match k {
            Some(x) => has_id(s@, id, x as int),
            None => !(exists|j: int| has_id(s@, id, j)),
        },
{
    let mut i: usize = 0;
    while i < s.len()
        invariant
            i <= s.len(),
            forall|j: int| 0 <= j < i ==> s@[j].id != id,
        decreases s.len() - i,
    {
        if s[i].id == id {
            return Some(i);
        }
        i = i + 1;
    }
    None
}

/// Index of the newest snapshot of `r` before position `n`.
fn newest_before_exec(s: &Vec<SnapshotRecord>, r: &String, n: usize) -> (k: Option<usize>)
    requires
        n <= s.len(),
    ensures
        match k {
            Some(x) => newest_before(s@, r@, n as int, x as int),
            None => forall|j: int| 0 <= j < n ==> (#[trigger] s@[j]).root_path@ != r@,
        },
{
    let mut i: usize = n;
    while i > 0
        invariant
            i <= n <= s.len(),
            forall|j: int| i <= j < n ==> (#[trigger] s@[j]).root_path@ != r@,
        decreases i,
    {
        if s[i - 1].root_path == *r {
            return Some(i - 1);
        }
        i = i - 1;
    }
    None
}

/// Index of the oldest snapshot of `r`.
fn oldest_exec(s: &Vec<SnapshotRecord>, r: &String) -> (k: Option<usize>)
    ensures
        match k {
            Some(x) => oldest_in_root(s@, r@, x as int),
            None => forall|j: int| 0 <= j < s.len() ==> (#[trigger] s@[j]).root_path@ != r@,
        },
{
    let mut i: usize = 0;
    while i < s.len()
        invariant
            i <= s.len(),
            forall|j: int| 0 <= j < i ==> (#[trigger] s@[j]).root_path@ != r@,
        decreases s.len() - i,
    {
        if s[i].root_path == *r {
            return Some(i);
        }
        i = i + 1;
    }
    None
}

/// Index of the root's latest-`created_at` snapshot taken at or before `t`.
fn at_or_before_exec(s: &Vec<SnapshotRecord>, r: &String, t: i64) -> (k: Option<usize>)
    ensures
        match k {
            Some(x) => at_or_before(s@, r@, t as int, x as int),
            None => forall|j: int| 0 <= j < s.len() && (#[trigger] s@[j]).root_path@ == r@ ==> s@[j].created_at_ms > t,
        },
{
    let mut best: Option<usize> = None;
    let mut i: usize = 0;
    while i < s.len()
        invariant
            i <= s.len(),
            match best {
                Some(x) => x < i && s@[x as int].root_path@ == r@ && s@[x as int].created_at_ms <= t
                    && forall|j: int| 0 <= j < i && (#[trigger] s@[j]).root_path@ == r@ && s@[j].created_at_ms <= t ==>
                        s@[j].created_at_ms < s@[x as int].created_at_ms
                        || (s@[j].created_at_ms == s@[x as int].created_at_ms && x <= j),
                None => forall|j: int| 0 <= j < i && (#[trigger] s@[j]).root_path@ == r@ ==> s@[j].created_at_ms > t,
            },
        decreases s.len() - i,
    {
        if s[i].root_path == *r && s[i].created_at_ms <= t {
            match best {
                None => { best = Some(i); },
                Some(x) => {
                    if s[i].created_at_ms > s[x].created_at_ms {
                        best = Some(i);
                    }
                },
            }
        }
        i = i + 1;
    }
    best
}

/// Choose and validate the `(before, after)` snapshot pair from the full
/// snapshot list (in id order).
///
/// - `Default`: the most recent snapshot's root, then its two latest
///   snapshots (older first). Errors when there is no snapshot, or fewer than
///   two for that root.
/// - `Explicit`: both ids must exist; a different-root pair is rejected so
///   snapshots are never (silently) compared across roots.
/// - `Since`: `after` is the latest snapshot; `before` is the root's snapshot
///   at or before `latest - duration` (latest `created_at`, ties to the
///   smallest id), or the root's earliest one when none is that old.
pub fn select_pair(snapshots: &Vec<SnapshotRecord>, selection: DiffSelection) -> (r: Result<SelectedPair, WhyBigError>)
    requires
        ids_ascending(snapshots@),
    ensures
        selection_spec(snapshots@, selection, r),
{
    let s = snapshots;
    match selection {
        DiffSelection::Explicit { from, to } => {
            let b = match find_id(s, from) {
                Some(b) => b,
                None => { return Err(WhyBigError::SnapshotNotFound(from)); },
            };
            let a = match find_id(s, to) {
                Some(a) => a,
                None => { return Err(WhyBigError::SnapshotNotFound(to)); },
            };
            assert forall|b2: int, a2: int| has_id(s@, from, b2) && has_id(s@, to, a2) implies b2 == b && a2 == a by {
                if b2 < b { assert(s@[b2].id < s@[b as int].id); }
                if b2 > b { assert(s@[b as int].id < s@[b2].id); }
                if a2 < a { assert(s@[a2].id < s@[a as int].id); }
                if a2 > a { assert(s@[a as int].id < s@[a2].id); }
            }
            if !paths_equal(s[b].root_path.as_str(), s[a].root_path.as_str()) {
                return Err(WhyBigError::CrossRootDiff);
            }
            Ok(SelectedPair { before: s[b].copied(), after: s[a].copied(), since: None })
        },
        DiffSelection::Default => {
            if s.len() == 0 {
                return Err(WhyBigError::NoSnapshots);
            }
            let last = s.len() - 1;
            let root = &s[last].root_path;
            match newest_before_exec(s, root, last) {
                None => {
                    Err(WhyBigError::NotEnoughSnapshots { root: root.clone(), count: 1 })
                },
                Some(k) => {
                    assert forall|k2: int| newest_before(s@, root@, last as int, k2) implies k2 == k by {
                        if k2 < k { assert(s@[k as int].root_path@ != root@); }
                        if k2 > k { assert(s@[k2].root_path@ != root@); }
                    }
                    Ok(SelectedPair { before: s[k].copied(), after: s[last].copied(), since: None })
                },
            }
        },
        DiffSelection::Since { duration } => {
            if s.len() == 0 {
                return Err(WhyBigError::NoSnapshots);
            }
            let last = s.len() - 1;
            let root = &s[last].root_path;
            let latest_ms = s[last].created_at_ms;
            let wide: i128 = latest_ms as i128 - duration.as_ms() as i128;
            let t: i64 = if wide < i64::MIN as i128 { i64::MIN } else if wide > i64::MAX as i128 { i64::MAX } else { wide as i64 };
            assert(t == since_target(latest_ms as int, duration));
            let (k, used_earliest) = match at_or_before_exec(s, root, t) {
                Some(k) => {
                    assert forall|k2: int| at_or_before(s@, root@, t as int, k2) implies k2 == k by {}
                    (k, false)
                },
                None => {
                    assert(!(exists|k2: int| at_or_before(s@, root@, t as int, k2)));
                    match oldest_exec(s, root) {
                        Some(k) => {
                            assert forall|k2: int| oldest_in_root(s@, root@, k2) implies k2 == k by {
                                if k2 < k { assert(s@[k2].root_path@ != root@); }
                                if k2 > k { assert(s@[k as int].root_path@ != root@); }
                            }
                            (k, true)
                        },
                        None => {
                            assert(s@[last as int].root_path@ == root@);
                            return Err(WhyBigError::NoEarlierSnapshot { root: root.clone() });
                        },
                    }
                },
            };
            if k == last {
                return Err(WhyBigError::NoEarlierSnapshot { root: root.clone() });
            }
            let info = SinceInfo {
                requested_seconds: duration.0,
                requested_target_ms: t,
                effective_before_ms: s[k].created_at_ms,
                used_earliest,
            };
            Ok(SelectedPair { before: s[k].copied(), after: s[last].copied(), since: Some(info) })
        },
    }
}

/// The result of comparing two snapshots at a scope.
#[derive(Debug, Clone)]
pub struct SnapshotDiff {
    /// The scope directory (the tracked root for `diff`).
    pub root: String,
    pub before: SnapshotRecord,
    pub after: SnapshotRecord,
    pub total_before: u64,
    pub total_after: u64,
    pub total_delta: i128,
    /// Entries that grew, sorted by delta descending (ties by path).
    pub grew: Vec<DiffEntry>,
    /// Entries that shrank, sorted by |delta| descending (ties by path).
    pub shrank: Vec<DiffEntry>,
    /// Present only when `--since` chose the pair.
    pub since: Option<SinceInfo>,
}

impl DiffEntry {
    /// A field-by-field copy.
    pub fn copied(&self) -> (r: DiffEntry)
        ensures
            r == *self,
    {
        DiffEntry {
            path: self.path.clone(),
            before_size: self.before_size,
            after_size: self.after_size,
            delta: self.delta,
            state: self.state,
        }
    }
}

/// Does a delta have the wanted sign (`1` grew, `-1` shrank, `0` any)?
pub open spec fn sign_ok(delta: int, sign: int) -> bool {
    if sign > 0 { delta > 0 } else if sign < 0 { delta < 0 } else { true }
}

/// `r` is exactly the merged rows whose delta has the sign `sign`, in merged
/// order. Within one sign, merged order is delta descending for growth and
/// delta ascending for shrinkage, ties by path.
pub open spec fn group_spec(r: Seq<DiffEntry>, before: Seq<EntryRecord>, after: Seq<EntryRecord>, scope: Seq<char>, sign: int) -> bool {
    &&& entries_ordered(r)
    &&& forall|i: int| 0 <= i < r.len() ==> entry_matches(#[trigger] r[i], before, after)
    &&& forall|i: int| 0 <= i < r.len() ==> merged_has(before, after, scope, (#[trigger] r[i]).path@)
    &&& forall|i: int| 0 <= i < r.len() ==> sign_ok((#[trigger] r[i]).delta as int, sign)
    &&& forall|p: Seq<char>| merged_has(before, after, scope, p)
        && sign_ok(size_or_zero(last_size(after, p, after.len() as int)) - size_or_zero(last_size(before, p, before.len() as int)), sign)
        ==> exists|i: int| 0 <= i < r.len() && (#[trigger] r[i]).path@ == p
}

/// The rows of `m` (the merged diff) whose delta has sign `sign`.
fn split_group(m: &Vec<DiffEntry>, sign: i8, Ghost(before): Ghost<Seq<EntryRecord>>, Ghost(after): Ghost<Seq<EntryRecord>>, Ghost(scope): Ghost<Seq<char>>) -> (g: Vec<DiffEntry>)
    requires
        merge_spec(m@, before, after, scope),
        sign == 1 || sign == -1,
    ensures
        group_spec(g@, before, after, scope, sign as int),
{
    let mut g: Vec<DiffEntry> = Vec::new();
    let mut i: usize = 0;
    while i < m.len()
        invariant
            i <= m.len(),
            sign == 1 || sign == -1,
            merge_spec(m@, before, after, scope),
            entries_ordered(g@),
            forall|x: int| #![trigger g@[x]] 0 <= x < g.len() ==> exists|k: int| 0 <= k < i && (#[trigger] m@[k]) == g@[x],
            forall|x: int| 0 <= x < g.len() ==> sign_ok((#[trigger] g@[x]).delta as int, sign as int),
            forall|k: int| 0 <= k < i && sign_ok((#[trigger] m@[k]).delta as int, sign as int) ==> g@.contains(m@[k]),
        decreases m.len() - i,
    {
        let keep = if sign > 0 { m[i].delta > 0 } else { m[i].delta < 0 };
        if keep {
            let e = m[i].copied();
            let ghost g0 = g@;
            proof {
                assert forall|x: int| 0 <= x < g0.len() implies entry_before(g0[x], e) by {
                    let k = choose|k: int| 0 <= k < i && (#[trigger] m@[k]) == g0[x];
                    assert(entry_before(m@[k], m@[i as int]));
                }
            }
            g.push(e);
            proof {
                assert forall|x: int| #![trigger g@[x]] 0 <= x < g.len() implies exists|k: int| 0 <= k < i + 1 && (#[trigger] m@[k]) == g@[x] by {
                    if x < g0.len() {
                        let k = choose|k: int| 0 <= k < i && (#[trigger] m@[k]) == g0[x];
                        assert(m@[k] == g@[x]);
                    } else {
                        assert(m@[i as int] == g@[x]);
                    }
                }
                assert forall|k: int| 0 <= k < i + 1 && sign_ok((#[trigger] m@[k]).delta as int, sign as int) implies g@.contains(m@[k]) by {
                    if k < i {
                        assert(g0.contains(m@[k]));
                        let x = choose|x: int| 0 <= x < g0.len() && g0[x] == m@[k];
                        assert(g@[x] == m@[k]);
                    } else {
                        assert(g@[g0.len() as int] == m@[k]);
                    }
                }
            }
        }
        i = i + 1;
    }
    proof {
        assert forall|x: int| 0 <= x < g.len() implies entry_matches(#[trigger] g@[x], before, after)
            && merged_has(before, after, scope, g@[x].path@) by {
            let k = choose|k: int| 0 <= k < m.len() && (#[trigger] m@[k]) == g@[x];
            assert(entry_matches(m@[k], before, after));
            assert(merged_has(before, after, scope, m@[k].path@));
        }
        assert forall|p: Seq<char>| merged_has(before, after, scope, p)
            && sign_ok(size_or_zero(last_size(after, p, after.len() as int)) - size_or_zero(last_size(before, p, before.len() as int)), sign as int)
            implies exists|x: int| 0 <= x < g.len() && (#[trigger] g@[x]).path@ == p by {
            let k = choose|k: int| 0 <= k < m.len() && (#[trigger] m@[k]).path@ == p;
            assert(entry_matches(m@[k], before, after));
            assert(g@.contains(m@[k]));
            let x = choose|x: int| 0 <= x < g.len() && g@[x] == m@[k];
            assert(g@[x].path@ == p);
        }
    }
    g
}

/// The exact diff of two snapshots at `scope`, from the stored child rows
/// of each.
pub open spec fn diff_spec(d: SnapshotDiff, before: SnapshotRecord, after: SnapshotRecord, scope: Seq<char>,
    before_children: Seq<EntryRecord>, after_children: Seq<EntryRecord>, since: Option<SinceInfo>) -> bool {
    &&& d.root@ == scope
    &&& d.before == before
    &&& d.after == after
    &&& d.total_before == to_u64_clamp(before.total_size as int)
    &&& d.total_after == to_u64_clamp(after.total_size as int)
    &&& d.total_delta == d.total_after - d.total_before
    &&& group_spec(d.grew@, before_children, after_children, scope, 1)
    &&& group_spec(d.shrank@, before_children, after_children, scope, -1)
    &&& d.since == since
}

/// Compose two snapshots into a diff at `scope`: the direct children of
/// `scope` that grew (delta descending) and that shrank (|delta|
/// descending), ties by path. `before_children` / `after_children` are the
/// stored direct-child rows of `scope` in each snapshot.
pub fn compute(before: &SnapshotRecord, after: &SnapshotRecord, scope: &str,
    before_children: &Vec<EntryRecord>, after_children: &Vec<EntryRecord>) -> (d: SnapshotDiff)
    ensures
        diff_spec(d, *before, *after, scope@, before_children@, after_children@, None),
{
    let merged = merge_children_deltas(before_children, after_children, scope);
    let grew = split_group(&merged, 1, Ghost(before_children@), Ghost(after_children@), Ghost(scope@));
    let shrank = split_group(&merged, -1, Ghost(before_children@), Ghost(after_children@), Ghost(scope@));
    let total_before = before.total_size_u64();
    let total_after = after.total_size_u64();
    SnapshotDiff {
        root: scope.to_string(),
        before: before.copied(),
        after: after.copied(),
        total_before,
        total_after,
        total_delta: signed_delta(total_before, total_after),
        grew,
        shrank,
        since: None,
    }
}

/// [`compute`] for a selected pair, carrying its `--since` record along.
pub fn compute_pair(pair: &SelectedPair, scope: &str,
    before_children: &Vec<EntryRecord>, after_children: &Vec<EntryRecord>) -> (d: SnapshotDiff)
    ensures
        diff_spec(d, pair.before, pair.after, scope@, before_children@, after_children@, pair.since),
{
    let mut d = compute(&pair.before, &pair.after, scope, before_children, after_children);
    d.since = pair.since;
    d
}

/// A selected pair never mixes roots: the two snapshots of every pair that
/// [`select_pair`] returns belong to the same tracked root (same path
/// components), whichever way the pair was chosen.
pub proof fn law_pair_never_crosses_roots(s: Seq<SnapshotRecord>, sel: DiffSelection, p: SelectedPair)
    requires
        ids_ascending(s),
        selection_spec(s, sel, Ok(p)),
    ensures
        components(p.before.root_path@) == components(p.after.root_path@),
{
    match sel {
        DiffSelection::Explicit { from, to } => {
            if !(exists|k: int| has_id(s, from, k)) {
                assert(false);
            }
            if !(exists|k: int| has_id(s, to, k)) {
                assert(false);
            }
            let b = choose|k: int| has_id(s, from, k);
            let a = choose|k: int| has_id(s, to, k);
            assert(has_id(s, from, b) && has_id(s, to, a));
            if components(s[b].root_path@) != components(s[a].root_path@) {
                assert(false);
            }
            assert(pair_is(p, s, b, a, None));
        },
        DiffSelection::Default => {
            let last = s.len() - 1;
            let k = choose|k: int| newest_before(s, s[last].root_path@, last, k);
            assert(newest_before(s, s[last].root_path@, last, k));
        },
        DiffSelection::Since { duration } => {
            let last = s.len() - 1;
            let root = s[last].root_path@;
            let t = since_target(s[last].created_at_ms as int, duration);
            if exists|k: int| at_or_before(s, root, t, k) {
                let k = choose|k: int| at_or_before(s, root, t, k);
                assert(since_outcome(s, Ok(p), k, duration, t, false));
            } else {
                assert(oldest_in_root(s, root, last) || exists|k: int| oldest_in_root(s, root, k)) by {
                    let mut k = 0int;
                    assert(s[last].root_path@ == root);
                    lemma_oldest_exists(s, root, last);
                }
                let k = choose|k: int| oldest_in_root(s, root, k);
                assert(since_outcome(s, Ok(p), k, duration, t, true));
            }
        },
    }
}

proof fn lemma_oldest_exists(s: Seq<SnapshotRecord>, r: Seq<char>, i: int)
    requires
        0 <= i < s.len(),
        s[i].root_path@ == r,
    ensures
        exists|k: int| oldest_in_root(s, r, k),
    decreases i,
{
    if forall|j: int| 0 <= j < i ==> (#[trigger] s[j]).root_path@ != r {
        assert(oldest_in_root(s, r, i));
    } else {
        let j = choose|j: int| 0 <= j < i && (#[trigger] s[j]).root_path@ != r == false;
        lemma_oldest_exists(s, r, j);
    }
}

/// Every directory that changed between the two snapshots is listed
/// exactly once: under `grew` when it grew, under `shrank` when it shrank,
/// never in both. Unchanged directories are listed in neither.
pub proof fn law_each_change_listed_once(d: SnapshotDiff, before: SnapshotRecord, after: SnapshotRecord, scope: Seq<char>,
    bc: Seq<EntryRecord>, ac: Seq<EntryRecord>, since: Option<SinceInfo>, p: Seq<char>)
    requires
        diff_spec(d, before, after, scope, bc, ac, since),
    ensures
        ({
            let delta = size_or_zero(last_size(ac, p, ac.len() as int)) - size_or_zero(last_size(bc, p, bc.len() as int));
            let in_grew = exists|i: int| 0 <= i < d.grew@.len() && (#[trigger] d.grew@[i]).path@ == p;
            let in_shrank = exists|i: int| 0 <= i < d.shrank@.len() && (#[trigger] d.shrank@[i]).path@ == p;
            &&& (merged_has(bc, ac, scope, p) && delta > 0) <==> in_grew
            &&& (merged_has(bc, ac, scope, p) && delta < 0) <==> in_shrank
            &&& !(in_grew && in_shrank)
        }),
{
    let delta = size_or_zero(last_size(ac, p, ac.len() as int)) - size_or_zero(last_size(bc, p, bc.len() as int));
    if exists|i: int| 0 <= i < d.grew@.len() && (#[trigger] d.grew@[i]).path@ == p {
        let i = choose|i: int| 0 <= i < d.grew@.len() && (#[trigger] d.grew@[i]).path@ == p;
        assert(entry_matches(d.grew@[i], bc, ac));
        assert(sign_ok(d.grew@[i].delta as int, 1));
        assert(merged_has(bc, ac, scope, d.grew@[i].path@));
    }
    if exists|i: int| 0 <= i < d.shrank@.len() && (#[trigger] d.shrank@[i]).path@ == p {
        let i = choose|i: int| 0 <= i < d.shrank@.len() && (#[trigger] d.shrank@[i]).path@ == p;
        assert(entry_matches(d.shrank@[i], bc, ac));
        assert(sign_ok(d.shrank@[i].delta as int, -1));
        assert(merged_has(bc, ac, scope, d.shrank@[i].path@));
    }
}

proof fn lemma_entry_before_asymmetric(x: DiffEntry, y: DiffEntry)
    ensures
        !(entry_before(x, y) && entry_before(y, x)),
{
    if entry_before(x, y) && entry_before(y, x) {
        lemma_entry_before_transitive(x, y, x);
        lemma_entry_before_irreflexive(x);
    }
}

/// Some row of `b` is for path `p`.
#[verifier::opaque]
pub open spec fn has_path(b: Seq<DiffEntry>, p: Seq<char>) -> bool {
    exists|j: int| 0 <= j < b.len() && b[j].path@ == p
}

/// A path carries the same delta in `a` and in `b`.
pub open spec fn same_deltas(a: Seq<DiffEntry>, b: Seq<DiffEntry>) -> bool {
    forall|i: int, j: int| 0 <= i < a.len() && 0 <= j < b.len() && (#[trigger] a[i]).path@ == (#[trigger] b[j]).path@
        ==> a[i].delta == b[j].delta
}

proof fn lemma_same_path_same_row(a: Seq<DiffEntry>, b: Seq<DiffEntry>, i: int, k: int)
    requires
        entries_ordered(a),
        same_deltas(a, b),
        0 <= i < k < a.len(),
        has_path(b, a[i].path@),
    ensures
        a[i].path@ != a[k].path@,
{
    reveal(has_path);
    if a[i].path@ == a[k].path@ {
        let j = choose|j: int| 0 <= j < b.len() && b[j].path@ == a[i].path@;
        assert(a[i].delta == b[j].delta);
        assert(a[k].delta == b[j].delta);
        assert(entry_before(a[i], a[k]));
        lemma_seq_lt_irreflexive(a[i].path@);
    }
}

/// Two lists over the same paths, each strictly ordered, where a path
/// always carries the same delta, list the same paths in the same order.
#[verifier::rlimit(40)]
proof fn lemma_ordered_unique(a: Seq<DiffEntry>, b: Seq<DiffEntry>)
    requires
        entries_ordered(a),
        entries_ordered(b),
        forall|i: int| 0 <= i < a.len() ==> has_path(b, (#[trigger] a[i]).path@),
        forall|j: int| 0 <= j < b.len() ==> has_path(a, (#[trigger] b[j]).path@),
        same_deltas(a, b),
    ensures
        a.len() == b.len(),
        forall|i: int| 0 <= i < a.len() ==> (#[trigger] a[i]).path@ == b[i].path@ && a[i].delta == b[i].delta,
    decreases a.len(),
{
    if a.len() == 0 {
        if b.len() > 0 {
            assert(has_path(a, b[0].path@));
            reveal(has_path);
        }
        return;
    }
    if b.len() == 0 {
        assert(has_path(b, a[0].path@));
        reveal(has_path);
        return;
    }
    assert(has_path(b, a[0].path@));
    assert(has_path(a, b[0].path@));
    let (j, k) = {
        reveal(has_path);
        let j = choose|j: int| 0 <= j < b.len() && b[j].path@ == a[0].path@;
        let k = choose|k: int| 0 <= k < a.len() && a[k].path@ == b[0].path@;
        (j, k)
    };
    assert(a[0].delta == b[j].delta);
    assert(a[k].delta == b[0].delta);
    if j > 0 && k > 0 {
        assert(entry_before(b[0], b[j]));
        assert(entry_before(a[0], a[k]));
        lemma_entry_before_asymmetric(a[0], a[k]);
    }
    if j > 0 && k == 0 {
        assert(entry_before(b[0], b[j]));
        lemma_seq_lt_irreflexive(b[0].path@);
    }
    if j == 0 && k > 0 {
        assert(entry_before(a[0], a[k]));
        lemma_seq_lt_irreflexive(a[0].path@);
    }
    assert(a[0].path@ == b[0].path@);
    let a2 = a.drop_first();
    let b2 = b.drop_first();
    assert forall|i: int| 0 <= i < a2.len() implies has_path(b2, (#[trigger] a2[i]).path@) by {
        assert(a2[i] == a[i + 1]);
        assert(has_path(b, a[i + 1].path@));
        lemma_same_path_same_row(a, b, 0, i + 1);
        reveal(has_path);
        let jj = choose|jj: int| 0 <= jj < b.len() && b[jj].path@ == a[i + 1].path@;
        assert(jj != 0);
        assert(b2[jj - 1] == b[jj]);
    }
    assert forall|jj: int| 0 <= jj < b2.len() implies has_path(a2, (#[trigger] b2[jj]).path@) by {
        assert(b2[jj] == b[jj + 1]);
        assert(has_path(a, b[jj + 1].path@));
        assert(same_deltas(b, a)) by {
            assert forall|x: int, y: int| 0 <= x < b.len() && 0 <= y < a.len() && (#[trigger] b[x]).path@ == (#[trigger] a[y]).path@
                implies b[x].delta == a[y].delta by {
                assert(a[y].delta == b[x].delta);
            }
        }
        lemma_same_path_same_row(b, a, 0, jj + 1);
        reveal(has_path);
        let i = choose|i: int| 0 <= i < a.len() && a[i].path@ == b[jj + 1].path@;
        assert(i != 0);
        assert(a2[i - 1] == a[i]);
    }
    assert(same_deltas(a2, b2)) by {
        assert forall|x: int, y: int| 0 <= x < a2.len() && 0 <= y < b2.len() && (#[trigger] a2[x]).path@ == (#[trigger] b2[y]).path@
            implies a2[x].delta == b2[y].delta by {
            assert(a2[x] == a[x + 1] && b2[y] == b[y + 1]);
        }
    }
    lemma_ordered_unique(a2, b2);
    assert forall|i: int| 0 <= i < a.len() implies (#[trigger] a[i]).path@ == b[i].path@ && a[i].delta == b[i].delta by {
        if i > 0 {
            assert(a[i] == a2[i - 1] && b[i] == b2[i - 1]);
        }
    }
}

proof fn lemma_group_covers(r1: Seq<DiffEntry>, r2: Seq<DiffEntry>, before: Seq<EntryRecord>, after: Seq<EntryRecord>, scope: Seq<char>, sign: int)
    requires
        group_spec(r1, before, after, scope, sign),
        group_spec(r2, before, after, scope, sign),
    ensures
        forall|i: int| 0 <= i < r1.len() ==> has_path(r2, (#[trigger] r1[i]).path@),
{
    reveal(has_path);
    assert forall|i: int| 0 <= i < r1.len() implies has_path(r2, (#[trigger] r1[i]).path@) by {
        assert(entry_matches(r1[i], before, after));
        assert(merged_has(before, after, scope, r1[i].path@));
        assert(sign_ok(r1[i].delta as int, sign));
    }
}

/// A group is determined by its inputs: two lists that both meet
/// [`group_spec`] for the same child rows, scope and sign list the same
/// directories, in the same order, with the same deltas. So `top` ranks
/// exactly what `diff` reports for the same pair and scope.
pub proof fn law_group_is_unique(r1: Seq<DiffEntry>, r2: Seq<DiffEntry>, before: Seq<EntryRecord>, after: Seq<EntryRecord>, scope: Seq<char>, sign: int)
    requires
        group_spec(r1, before, after, scope, sign),
        group_spec(r2, before, after, scope, sign),
    ensures
        r1.len() == r2.len(),
        forall|i: int| 0 <= i < r1.len() ==> (#[trigger] r1[i]).path@ == r2[i].path@ && r1[i].delta == r2[i].delta,
{
    lemma_group_covers(r1, r2, before, after, scope, sign);
    lemma_group_covers(r2, r1, before, after, scope, sign);
    assert forall|i: int, j: int| 0 <= i < r1.len() && 0 <= j < r2.len() && (#[trigger] r1[i]).path@ == (#[trigger] r2[j]).path@
        implies r1[i].delta == r2[j].delta by {
        assert(entry_matches(r1[i], before, after));
        assert(entry_matches(r2[j], before, after));
    }
    lemma_ordered_unique(r1, r2);
}

} // verus!
