//! What the database layer does with the rows its queries return.
use vstd::prelude::*;
use crate::error::WhyBigError;
use crate::pathutil::{direct_child, is_direct_child};
use crate::storage::models::EntryRecord;
use crate::text::{dec, push_char, push_dec};

verus! {

/// The rows that are **direct** children of `parent`, in query order. The
/// SQL `LIKE` narrows the scan to the subtree; this component-wise filter
/// guarantees boundary correctness (`/a/bar` vs `/a/bar2`).
pub fn keep_direct_children(parent: &str, rows: Vec<EntryRecord>) -> (r: Vec<EntryRecord>)
    ensures
        r@ == rows@.filter(|e: EntryRecord| direct_child(e.path@, parent@)),
{
    let mut out: Vec<EntryRecord> = Vec::new();
    let mut i: usize = 0;
    while i < rows.len()
        invariant
            i <= rows.len(),
            out@ == rows@.take(i as int).filter(|e: EntryRecord| direct_child(e.path@, parent@)),
        decreases rows.len() - i,
    {
        let e = rows[i].copied();
        proof {
            assert(rows@.take(i + 1) =~= rows@.take(i as int).push(rows@[i as int]));
            rows@.take(i as int).lemma_filter_push(rows@[i as int], |e: EntryRecord| direct_child(e.path@, parent@));
        }
        if is_direct_child(e.path.as_str(), parent) {
            out.push(e);
        }
        i = i + 1;
    }
    assert(rows@.take(rows.len() as int) =~= rows@);
    out
}

/// A history series fetched newest-first (so `LIMIT` keeps the latest
/// points), returned ascending for the trend.
pub fn ascending_series(newest_first: Vec<(i64, i64, u64)>) -> (r: Vec<(i64, i64, u64)>)
    ensures
        r@ == newest_first@.reverse(),
{
    let mut out: Vec<(i64, i64, u64)> = Vec::new();
    let mut i: usize = newest_first.len();
    while i > 0
        invariant
            i <= newest_first.len(),
            out@ == newest_first@.subrange(i as int, newest_first.len() as int).reverse(),
        decreases i,
    {
        out.push(newest_first[i - 1]);
        proof {
            let s = newest_first@;
            assert(s.subrange(i - 1, s.len() as int).reverse() =~= s.subrange(i as int, s.len() as int).reverse().push(s[i - 1]));
        }
        i = i - 1;
    }
    assert(newest_first@.subrange(0, newest_first.len() as int) =~= newest_first@);
    out
}

/// The schema versions still to apply to a database at `current`, in
/// order, when the newest known version is `latest`. A database written by
/// a newer version is refused untouched.
pub fn pending_migrations(current: i64, latest: i64) -> (r: Result<Vec<i64>, WhyBigError>)
    requires
        0 <= latest < i64::MAX,
    ensures
        current > latest ==> r == Err::<Vec<i64>, WhyBigError>(WhyBigError::NewerSchema),
        current <= latest ==> r is Ok
            && r->Ok_0@ == Seq::new((latest - (if current < 0 { 0 } else { current })) as nat,
                |k: int| (k + 1 + (if current < 0 { 0 } else { current })) as i64),
{
    if current > latest {
        return Err(WhyBigError::NewerSchema);
    }
    let start: i64 = if current < 0 { 0 } else { current };
    let mut out: Vec<i64> = Vec::new();
    let mut v: i64 = start;
    while v < latest
        invariant
            start <= v <= latest < i64::MAX,
            out@ == Seq::new((v - start) as nat, |k: int| (k + 1 + start) as i64),
        decreases latest - v,
    {
        v = v + 1;
        out.push(v);
        assert(out@ =~= Seq::new((v - start) as nat, |k: int| (k + 1 + start) as i64));
    }
    Ok(out)
}

/// The error for a failed migration step: `v<target>: <cause>`.
pub fn migration_failure(target: i64, cause: &str) -> (e: WhyBigError)
    requires
        target >= 0,
    ensures
        e matches WhyBigError::Migration(m) && m@ == seq!['v'] + dec(target as nat) + ": "@ + cause@,
{
    let mut m = String::new();
    push_char(&mut m, 'v');
    push_dec(&mut m, target as u128);
    m.append(": ");
    m.append(cause);
    assert(m@ =~= seq!['v'] + dec(target as nat) + ": "@ + cause@);
    WhyBigError::Migration(m)
}

} // verus!
