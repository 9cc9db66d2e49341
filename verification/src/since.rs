//! `--since` duration parsing and human "N ago" wording.
//!
//! Only whole minutes/hours/days/weeks are accepted (no months, years or
//! natural language). All time math is integer UTC milliseconds.
use vstd::prelude::*;
use crate::error::WhyBigError;
use crate::text::{chars_of, dec, push_dec, string_of};

verus! {

/// A wall-clock duration in whole seconds.
#[derive(Debug, Clone, Copy, PartialEq, Eq)]
pub struct DurationSecs(pub i64);

impl DurationSecs {
    /// Integer milliseconds, saturating at the `i64` bounds.
    pub fn as_ms(self) -> (ms: i64)
        ensures
            ms == (if self.0 * 1000 > i64::MAX {
                i64::MAX as int
            } else if self.0 * 1000 < i64::MIN {
                i64::MIN as int
            } else {
                self.0 * 1000
            }),
    {
        match self.0.checked_mul(1000) {
            Some(v) => v,
            None => if self.0 < 0 { i64::MIN } else { i64::MAX },
        }
    }
}

/// Unicode `White_Space` characters (what `str::trim` removes).
pub open spec fn is_ws(c: char) -> bool {
    let u = c as u32;
    ||| 0x09 <= u <= 0x0d
    ||| u == 0x20
    ||| u == 0x85
    ||| u == 0xa0
    ||| u == 0x1680
    ||| 0x2000 <= u <= 0x200a
    ||| u == 0x2028
    ||| u == 0x2029
    ||| u == 0x202f
    ||| u == 0x205f
    ||| u == 0x3000
}

/// `cs` without leading whitespace.
pub open spec fn trim_start(cs: Seq<char>) -> Seq<char>
    decreases cs.len(),
{
    if cs.len() > 0 && is_ws(cs[0]) { trim_start(cs.drop_first()) } else { cs }
}

/// `cs` without trailing whitespace.
pub open spec fn trim_end(cs: Seq<char>) -> Seq<char>
    decreases cs.len(),
{
    if cs.len() > 0 && is_ws(cs.last()) { trim_end(cs.drop_last()) } else { cs }
}

/// `cs` without leading or trailing whitespace (`str::trim`).
pub open spec fn trim(cs: Seq<char>) -> Seq<char> {
    trim_end(trim_start(cs))
}

/// The smaller of two naturals.
pub open spec fn min_nat(a: nat, b: nat) -> nat {
    if a < b { a } else { b }
}

/// Is `c` an ASCII decimal digit?
pub open spec fn is_digit(c: char) -> bool {
    '0' <= c && c <= '9'
}

/// Value of a run of ASCII digits.
pub open spec fn digits_value(cs: Seq<char>) -> nat
    decreases cs.len(),
{
    if cs.len() == 0 {
        0
    } else {
        digits_value(cs.drop_last()) * 10 + ((cs.last() as u32) - ('0' as u32)) as nat
    }
}

/// Are all of `cs` ASCII digits (and is there at least one)?
pub open spec fn all_digits(cs: Seq<char>) -> bool {
    cs.len() > 0 && forall|i: int| 0 <= i < cs.len() ==> is_digit(#[trigger] cs[i])
}

/// What `i64::from_str` accepts: an optional sign then digits, in range.
pub open spec fn i64_value(cs: Seq<char>) -> Option<int> {
    let (neg, body) = if cs.len() > 0 && cs[0] == '-' {
        (true, cs.drop_first())
    } else if cs.len() > 0 && cs[0] == '+' {
        (false, cs.drop_first())
    } else {
        (false, cs)
    };
    if !all_digits(body) {
        None
    } else {
        let v: int = if neg { -(digits_value(body) as int) } else { digits_value(body) as int };
        if i64::MIN <= v <= i64::MAX { Some(v) } else { None }
    }
}

/// Seconds per unit suffix (`0` for an unknown suffix).
pub open spec fn unit_secs(c: char) -> int {
    if c == 'm' { 60 } else if c == 'h' { 3600 } else if c == 'd' { 86_400 } else if c == 'w' { 604_800 } else { 0 }
}

/// The number of seconds `parse` accepts `s` as, if any.
pub open spec fn duration_value(s: Seq<char>) -> Option<int> {
    let t = trim(s);
    if t.len() == 0 {
        None
    } else {
        match i64_value(t.drop_last()) {
            None => None,
            Some(n) => {
                let f = unit_secs(t.last());
                if n <= 0 || f == 0 || n * f > i64::MAX { None } else { Some(n * f) }
            },
        }
    }
}

proof fn lemma_trim_start_skip(cs: Seq<char>, i: int)
    requires
        0 <= i <= cs.len(),
        forall|j: int| 0 <= j < i ==> is_ws(#[trigger] cs[j]),
    ensures
        trim_start(cs) == trim_start(cs.subrange(i, cs.len() as int)),
    decreases i,
{
    if i > 0 {
        assert(cs.drop_first() =~= cs.subrange(1, cs.len() as int));
        lemma_trim_start_skip(cs.drop_first(), i - 1);
        assert(cs.drop_first().subrange(i - 1, cs.drop_first().len() as int) =~= cs.subrange(i, cs.len() as int));
    } else {
        assert(cs.subrange(0, cs.len() as int) =~= cs);
    }
}

proof fn lemma_trim_end_skip(cs: Seq<char>, k: int)
    requires
        0 <= k <= cs.len(),
        forall|j: int| k <= j < cs.len() ==> is_ws(#[trigger] cs[j]),
    ensures
        trim_end(cs) == trim_end(cs.subrange(0, k)),
    decreases cs.len() - k,
{
    if k < cs.len() {
        lemma_trim_end_skip(cs.drop_last(), k);
        assert(cs.drop_last().subrange(0, k) =~= cs.subrange(0, k));
    } else {
        assert(cs.subrange(0, k) =~= cs);
    }
}

fn is_ws_exec(c: char) -> (b: bool)
    ensures
        b == is_ws(c),
{
    let u = c as u32;
    (0x09 <= u && u <= 0x0d) || u == 0x20 || u == 0x85 || u == 0xa0 || u == 0x1680
        || (0x2000 <= u && u <= 0x200a) || u == 0x2028 || u == 0x2029 || u == 0x202f
        || u == 0x205f || u == 0x3000
}

/// `str::trim` on a character vector.
pub fn trim_chars(cs: &Vec<char>) -> (t: Vec<char>)
    ensures
        t@ == trim(cs@),
{
    let n = cs.len();
    let mut i: usize = 0;
    while i < n && is_ws_exec(cs[i])
        invariant
            n == cs.len(),
            i <= n,
            forall|j: int| 0 <= j < i ==> is_ws(#[trigger] cs@[j]),
        decreases n - i,
    {
        i = i + 1;
    }
    proof {
        lemma_trim_start_skip(cs@, i as int);
    }
    let ghost rest = cs@.subrange(i as int, n as int);
    assert(trim_start(cs@) == rest) by {
        if rest.len() > 0 {
            assert(rest[0] == cs@[i as int]);
        }
    }
    let mut k: usize = n;
    while k > i && is_ws_exec(cs[k - 1])
        invariant
            n == cs.len(),
            i <= k <= n,
            rest == cs@.subrange(i as int, n as int),
            forall|j: int| (k - i) <= j < rest.len() ==> is_ws(#[trigger] rest[j]),
        decreases k,
    {
        k = k - 1;
    }
    proof {
        lemma_trim_end_skip(rest, k - i);
        let r2 = rest.subrange(0, k - i);
        if r2.len() > 0 {
            assert(r2.last() == cs@[k - 1]);
        }
        assert(trim_end(r2) == r2);
    }
    let mut t: Vec<char> = Vec::new();
    let mut j: usize = i;
    while j < k
        invariant
            n == cs.len(),
            i <= j <= k <= n,
            t@ == cs@.subrange(i as int, j as int),
        decreases k - j,
    {
        t.push(cs[j]);
        assert(cs@.subrange(i as int, (j + 1) as int) =~= cs@.subrange(i as int, j as int).push(cs@[j as int]));
        j = j + 1;
    }
    assert(rest.subrange(0, k - i) =~= cs@.subrange(i as int, k as int));
    t
}

proof fn lemma_digits_value_step(cs: Seq<char>, j: int)
    requires
        0 <= j < cs.len(),
    ensures
        digits_value(cs.subrange(0, j + 1)) == digits_value(cs.subrange(0, j)) * 10
            + ((cs[j] as u32) - ('0' as u32)) as nat,
{
    let s = cs.subrange(0, j + 1);
    assert(s.drop_last() =~= cs.subrange(0, j));
    assert(s.last() == cs[j]);
}

/// Parse a run of characters the way `i64::from_str` does.
pub fn parse_i64(cs: &Vec<char>, start: usize, end: usize) -> (r: Option<i64>)
    requires
        start <= end <= cs.len(),
    ensures
        r matches Some(v) ==> i64_value(cs@.subrange(start as int, end as int)) == Some(v as int),
        r is None ==> i64_value(cs@.subrange(start as int, end as int)) is None,
{
    let ghost s = cs@.subrange(start as int, end as int);
    let mut pos = start;
    let mut neg = false;
    if start < end && cs[start] == '-' {
        neg = true;
        pos = start + 1;
    } else if start < end && cs[start] == '+' {
        pos = start + 1;
    }
    let ghost body = cs@.subrange(pos as int, end as int);
    assert(body =~= (if s.len() > 0 && (s[0] == '-' || s[0] == '+') { s.drop_first() } else { s }));
    if pos == end {
        return None;
    }
    // Accumulate the magnitude, capped just above what i64 can hold.
    let limit: u128 = 9223372036854775808;
    let mut acc: u128 = 0;
    let mut j = pos;
    while j < end
        invariant
            start <= pos <= j <= end <= cs.len(),
            pos < end,
            limit == 9223372036854775808,
            s == cs@.subrange(start as int, end as int),
            neg == (s.len() > 0 && s[0] == '-'),
            body == (if s.len() > 0 && (s[0] == '-' || s[0] == '+') { s.drop_first() } else { s }),
            body == cs@.subrange(pos as int, end as int),
            acc == min_nat(digits_value(cs@.subrange(pos as int, j as int)), limit as nat + 1),
            forall|q: int| pos <= q < j ==> is_digit(#[trigger] cs@[q]),
        decreases end - j,
    {
        let c = cs[j];
        if !('0' <= c && c <= '9') {
            assert(!is_digit(body[j - pos]));
            return None;
        }
        let d = (c as u32 - '0' as u32) as u128;
        proof {
            lemma_digits_value_step(cs@.subrange(pos as int, end as int), (j - pos) as int);
            assert(cs@.subrange(pos as int, end as int).subrange(0, (j - pos + 1) as int)
                =~= cs@.subrange(pos as int, (j + 1) as int));
            assert(cs@.subrange(pos as int, end as int).subrange(0, (j - pos) as int)
                =~= cs@.subrange(pos as int, j as int));
        }
        let next = acc * 10 + d;
        acc = if next > limit { limit + 1 } else { next };
        j = j + 1;
    }
    let ghost v = digits_value(body);
    assert(cs@.subrange(pos as int, j as int) =~= body);
    assert(all_digits(body));
    if neg {
        if acc > limit {
            None
        } else if acc == limit {
            Some(i64::MIN)
        } else {
            Some(-(acc as i64))
        }
    } else {
        if acc >= limit {
            None
        } else {
            Some(acc as i64)
        }
    }
}

/// Parse `30m`, `24h`, `7d`, `4w` (surrounding whitespace ignored). Rejects
/// zero, negatives, overflow and unknown suffixes with `BadDuration`
/// carrying the trimmed input.
pub fn parse(s: &str) -> (r: Result<DurationSecs, WhyBigError>)
    ensures
        r matches Ok(d) ==> duration_value(s@) == Some(d.0 as int),
        r matches Err(e) ==> duration_value(s@) is None
            && (e matches WhyBigError::BadDuration(t) && t@ == trim(s@)),
        duration_value(s@) is None ==> r is Err,
{
    let cs = chars_of(s);
    let t = trim_chars(&cs);
    let n = t.len();
    if n == 0 {
        return Err(WhyBigError::BadDuration(string_of(&t)));
    }
    let unit = t[n - 1];
    assert(t@.drop_last() =~= t@.subrange(0, n - 1));
    let num = match parse_i64(&t, 0, n - 1) {
        Some(v) => v,
        None => return Err(WhyBigError::BadDuration(string_of(&t))),
    };
    if num <= 0 {
        return Err(WhyBigError::BadDuration(string_of(&t)));
    }
    let factor: i64 = if unit == 'm' {
        60
    } else if unit == 'h' {
        3600
    } else if unit == 'd' {
        86_400
    } else if unit == 'w' {
        604_800
    } else {
        return Err(WhyBigError::BadDuration(string_of(&t)));
    };
    match num.checked_mul(factor) {
        Some(secs) => Ok(DurationSecs(secs)),
        None => Err(WhyBigError::BadDuration(string_of(&t))),
    }
}

/// `1 {singular} ago` or `{n} {plural} ago`.
pub open spec fn ago_unit(n: int, singular: Seq<char>, plural: Seq<char>) -> Seq<char> {
    if n == 1 {
        "1 "@ + singular + " ago"@
    } else {
        dec(n as nat) + " "@ + plural + " ago"@
    }
}

/// The wording `human_ago` uses for `secs`.
pub open spec fn ago_text(secs: int) -> Seq<char> {
    if secs >= 2 * 604_800 && secs % 604_800 == 0 {
        ago_unit(secs / 604_800, "week"@, "weeks"@)
    } else if secs >= 86_400 && secs % 86_400 == 0 {
        ago_unit(secs / 86_400, "day"@, "days"@)
    } else if secs >= 3600 && secs % 3600 == 0 {
        ago_unit(secs / 3600, "hour"@, "hours"@)
    } else {
        ago_unit(if secs >= 60 { secs / 60 } else { 1 }, "minute"@, "minutes"@)
    }
}

fn push_ago(out: &mut String, n: i64, singular: &str, plural: &str)
    requires
        n >= 1,
    ensures
        final(out)@ == old(out)@ + ago_unit(n as int, singular@, plural@),
{
    let ghost start = out@;
    if n == 1 {
        out.append("1 ");
        out.append(singular);
        out.append(" ago");
        assert(out@ =~= start + ago_unit(n as int, singular@, plural@));
    } else {
        assert((n as u128) as nat == (n as int) as nat);
        push_dec(out, n as u128);
        out.append(" ");
        out.append(plural);
        out.append(" ago");
        assert(out@ =~= start + ago_unit(n as int, singular@, plural@));
    }
}

/// "7 days ago" / "24 hours ago" / "30 minutes ago" for human notices.
pub fn human_ago(secs: i64) -> (s: String)
    ensures
        s@ == ago_text(secs as int),
{
    let mut out = String::new();
    if secs >= 2 * 604_800 && secs % 604_800 == 0 {
        push_ago(&mut out, secs / 604_800, "week", "weeks");
    } else if secs >= 86_400 && secs % 86_400 == 0 {
        push_ago(&mut out, secs / 86_400, "day", "days");
    } else if secs >= 3600 && secs % 3600 == 0 {
        push_ago(&mut out, secs / 3600, "hour", "hours");
    } else {
        let n = if secs >= 60 { secs / 60 } else { 1 };
        push_ago(&mut out, n, "minute", "minutes");
    }
    assert(out@ =~= ago_text(secs as int));
    out
}

} // verus!
