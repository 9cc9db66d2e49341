//! Orderings used by the reports: ascending id lists and the byte order of
//! strings (which, for valid UTF-8, is the code-point order of characters).
use vstd::prelude::*;

verus! {

broadcast use vstd::seq_lib::group_to_multiset_ensures;

/// Non-decreasing.
pub open spec fn sorted_i64(s: Seq<i64>) -> bool {
    forall|i: int, j: int| 0 <= i < j < s.len() ==> s[i] <= s[j]
}

/// Strictly increasing (hence free of duplicates).
pub open spec fn strictly_sorted_i64(s: Seq<i64>) -> bool {
    forall|i: int, j: int| 0 <= i < j < s.len() ==> s[i] < s[j]
}

proof fn lemma_insert_multiset(s: Seq<i64>, p: int, x: i64)
    requires
        0 <= p <= s.len(),
    ensures
        s.insert(p, x).to_multiset() =~= s.to_multiset().insert(x),
{
    let t = s.insert(p, x);
    assert(t.remove(p) =~= s);
    assert(t[p] == x);
    assert(t.remove(p).to_multiset() =~= t.to_multiset().remove(x));
    assert(t.to_multiset().count(x) > 0);
}

/// The ids in ascending order (a permutation of the input).
pub fn sort_i64(v: &Vec<i64>) -> (r: Vec<i64>)
    ensures
        sorted_i64(r@),
        r@.to_multiset() == v@.to_multiset(),
{
    let mut r: Vec<i64> = Vec::new();
    let mut i: usize = 0;
    while i < v.len()
        invariant
            i <= v.len(),
            sorted_i64(r@),
            r@.to_multiset() == v@.subrange(0, i as int).to_multiset(),
        decreases v.len() - i,
    {
        let x = v[i];
        let mut p: usize = 0;
        while p < r.len() && r[p] <= x
            invariant
                p <= r.len(),
                forall|q: int| 0 <= q < p ==> r@[q] <= x,
            decreases r.len() - p,
        {
            p = p + 1;
        }
        let ghost before = r@;
        r.insert(p, x);
        proof {
            lemma_insert_multiset(before, p as int, x);
            assert(v@.subrange(0, (i + 1) as int) =~= v@.subrange(0, i as int).push(x));
            assert forall|a: int, b: int| 0 <= a < b < r@.len() implies r@[a] <= r@[b] by {
                if a < p && b == p {
                } else if a == p && b > p {
                    assert(before[b - 1] >= before[p as int] || p == before.len());
                }
            }
        }
        i = i + 1;
    }
    assert(v@.subrange(0, v.len() as int) =~= v@);
    r
}

/// The distinct ids, ascending.
pub fn sort_dedup_i64(v: &Vec<i64>) -> (r: Vec<i64>)
    ensures
        strictly_sorted_i64(r@),
        r@.to_set() == v@.to_set(),
{
    let mut r: Vec<i64> = Vec::new();
    let mut i: usize = 0;
    while i < v.len()
        invariant
            i <= v.len(),
            strictly_sorted_i64(r@),
            r@.to_set() == v@.subrange(0, i as int).to_set(),
        decreases v.len() - i,
    {
        let x = v[i];
        let mut p: usize = 0;
        while p < r.len() && r[p] < x
            invariant
                p <= r.len(),
                forall|q: int| 0 <= q < p ==> r@[q] < x,
            decreases r.len() - p,
        {
            p = p + 1;
        }
        assert(v@.subrange(0, (i + 1) as int) =~= v@.subrange(0, i as int).push(x));
        if p < r.len() && r[p] == x {
            assert(r@.to_set() =~= v@.subrange(0, (i + 1) as int).to_set()) by {
                assert(r@.contains(x));
                v@.subrange(0, i as int).lemma_push_to_set_commute(x);
            }
        } else {
            let ghost before = r@;
            r.insert(p, x);
            proof {
                assert(r@ =~= before.subrange(0, p as int).push(x) + before.subrange(p as int, before.len() as int));
                assert(r@.to_set() =~= before.to_set().insert(x)) by {
                    assert forall|y: i64| r@.to_set().contains(y) implies before.to_set().insert(x).contains(y) by {
                        let k = choose|k: int| 0 <= k < r@.len() && r@[k] == y;
                        if k < p { assert(before[k] == y); } else if k > p { assert(before[k - 1] == y); }
                    }
                    assert forall|y: i64| before.to_set().insert(x).contains(y) implies r@.to_set().contains(y) by {
                        if y == x {
                            assert(r@[p as int] == x);
                        } else {
                            let k = choose|k: int| 0 <= k < before.len() && before[k] == y;
                            if k < p { assert(r@[k] == y); } else { assert(r@[k + 1] == y); }
                        }
                    }
                }
                v@.subrange(0, i as int).lemma_push_to_set_commute(x);
                assert forall|a: int, b: int| 0 <= a < b < r@.len() implies r@[a] < r@[b] by {
                    if a < p && b == p {
                    } else if a == p && b > p {
                        assert(before[p as int] > x);
                        assert(before[b - 1] >= before[p as int]);
                    }
                }
            }
        }
        i = i + 1;
    }
    assert(v@.subrange(0, v.len() as int) =~= v@);
    r
}

/// Strict code-point lexicographic order on character sequences — the
/// order `String`'s `Ord` gives (byte order of UTF-8).
pub open spec fn seq_lt(a: Seq<char>, b: Seq<char>) -> bool
    decreases a.len(),
{
    if a.len() == 0 {
        b.len() > 0
    } else if b.len() == 0 {
        false
    } else if a[0] != b[0] {
        a[0] < b[0]
    } else {
        seq_lt(a.drop_first(), b.drop_first())
    }
}

/// `seq_lt` is irreflexive.
pub proof fn lemma_seq_lt_irreflexive(a: Seq<char>)
    ensures
        !seq_lt(a, a),
    decreases a.len(),
{
    if a.len() > 0 {
        lemma_seq_lt_irreflexive(a.drop_first());
    }
}

/// `seq_lt` is transitive.
pub proof fn lemma_seq_lt_transitive(a: Seq<char>, b: Seq<char>, c: Seq<char>)
    requires
        seq_lt(a, b),
        seq_lt(b, c),
    ensures
        seq_lt(a, c),
    decreases a.len(),
{
    if a.len() > 0 && b.len() > 0 && c.len() > 0 && a[0] == b[0] && b[0] == c[0] {
        lemma_seq_lt_transitive(a.drop_first(), b.drop_first(), c.drop_first());
    }
}

/// Two different sequences are ordered one way or the other.
pub proof fn lemma_seq_lt_total(a: Seq<char>, b: Seq<char>)
    requires
        a != b,
    ensures
        seq_lt(a, b) || seq_lt(b, a),
    decreases a.len(),
{
    if a.len() > 0 && b.len() > 0 && a[0] == b[0] {
        if a.drop_first() == b.drop_first() {
            assert(a =~= seq![a[0]] + a.drop_first());
            assert(b =~= seq![b[0]] + b.drop_first());
        }
        lemma_seq_lt_total(a.drop_first(), b.drop_first());
    } else if a.len() == 0 && b.len() == 0 {
        assert(a =~= b);
    } else if a.len() > 0 && b.len() > 0 {
        assert(a[0] != b[0]);
    }
}

/// `a < b` in string order.
pub fn str_lt(a: &str, b: &str) -> (r: bool)
    ensures
        r == seq_lt(a@, b@),
{
    let ac = crate::text::chars_of(a);
    let bc = crate::text::chars_of(b);
    let mut i: usize = 0;
    assert(a@.subrange(0, a@.len() as int) =~= a@);
    assert(b@.subrange(0, b@.len() as int) =~= b@);
    while i < ac.len() && i < bc.len() && ac[i] == bc[i]
        invariant
            i <= ac.len(),
            i <= bc.len(),
            ac@ == a@,
            bc@ == b@,
            seq_lt(a@, b@) == seq_lt(a@.subrange(i as int, a@.len() as int), b@.subrange(i as int, b@.len() as int)),
        decreases ac.len() - i,
    {
        proof {
            let sa = a@.subrange(i as int, a@.len() as int);
            let sb = b@.subrange(i as int, b@.len() as int);
            assert(sa.drop_first() =~= a@.subrange(i + 1, a@.len() as int));
            assert(sb.drop_first() =~= b@.subrange(i + 1, b@.len() as int));
        }
        i = i + 1;
    }
    if i == ac.len() {
        i < bc.len()
    } else if i == bc.len() {
        false
    } else {
        ac[i] < bc[i]
    }
}

} // verus!
