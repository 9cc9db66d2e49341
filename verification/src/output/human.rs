//! Human-friendly numbers, durations and local timestamps.
use vstd::prelude::*;
use crate::scanner::Elapsed;
use crate::output::size::{round_half_even, round_half_even_exec};
use crate::text::{chars_of, dec, digit, digit_char, push_char, push_dec};

verus! {

/// Decimal digits grouped by threes from the right with `,`.
pub open spec fn grouped(d: Seq<char>) -> Seq<char>
    decreases d.len(),
{
    if d.len() <= 3 {
        d
    } else {
        grouped(d.subrange(0, d.len() - 3)) + seq![','] + d.subrange(d.len() - 3, d.len() as int)
    }
}

/// The text `number` produces.
pub open spec fn number_text(n: nat) -> Seq<char> {
    grouped(dec(n))
}

fn push_range(out: &mut String, d: &Vec<char>, from: usize, to: usize)
    requires
        from <= to <= d.len(),
    ensures
        final(out)@ == old(out)@ + d@.subrange(from as int, to as int),
{
    let ghost start = out@;
    let mut i: usize = from;
    while i < to
        invariant
            from <= i <= to <= d.len(),
            out@ == start + d@.subrange(from as int, i as int),
        decreases to - i,
    {
        push_char(out, d[i]);
        assert(d@.subrange(from as int, (i + 1) as int) =~= d@.subrange(from as int, i as int).push(d@[i as int]));
        i = i + 1;
    }
}

fn push_grouped(out: &mut String, d: &Vec<char>, n: usize)
    requires
        n <= d.len(),
    ensures
        final(out)@ == old(out)@ + grouped(d@.subrange(0, n as int)),
    decreases n,
{
    let ghost start = out@;
    if n <= 3 {
        push_range(out, d, 0, n);
    } else {
        push_grouped(out, d, n - 3);
        push_char(out, ',');
        push_range(out, d, n - 3, n);
        let ghost p = d@.subrange(0, n as int);
        assert(p.subrange(0, p.len() - 3) =~= d@.subrange(0, n - 3));
        assert(p.subrange(p.len() - 3, p.len() as int) =~= d@.subrange(n - 3, n as int));
        assert(out@ =~= start + grouped(p));
    }
}

/// `423817` → `423,817`.
pub fn number(n: u64) -> (s: String)
    ensures
        s@ == number_text(n as nat),
{
    let mut digits = String::new();
    push_dec(&mut digits, n as u128);
    let d = chars_of(digits.as_str());
    let mut out = String::new();
    push_grouped(&mut out, &d, d.len());
    assert(d@.subrange(0, d.len() as int) =~= d@);
    assert(out@ =~= number_text(n as nat));
    out
}

/// Timestamps (UTC epoch milliseconds) from 0001-01-01T00:00:00Z up to, not
/// including, 9999-12-31T00:00:00Z. A time-zone offset is less than a day,
/// so the local year of such a timestamp lies in 0..=9999.
pub open spec fn four_digit_year_range(ms: i64) -> bool {
    -62135596800000 <= ms < 253402214400000
}

pub open spec fn is_digit(c: char) -> bool {
    '0' <= c <= '9'
}

/// The two decimal digits at `t[i]`, `t[i + 1]` hold a value in `lo..=hi`.
pub open spec fn two_digit_field(t: Seq<char>, i: int, lo: int, hi: int) -> bool {
    &&& is_digit(t[i])
    &&& is_digit(t[i + 1])
    &&& lo <= (t[i] as int - '0' as int) * 10 + (t[i + 1] as int - '0' as int) <= hi
}

/// `YYYY-MM-DD HH:MM:SS`: a four-digit year, month 01-12, day 01-31, hour
/// 00-23, minute and second 00-59.
pub open spec fn datetime_shape(t: Seq<char>) -> bool {
    &&& t.len() == 19
    &&& is_digit(t[0]) && is_digit(t[1]) && is_digit(t[2]) && is_digit(t[3])
    &&& t[4] == '-'
    &&& two_digit_field(t, 5, 1, 12)
    &&& t[7] == '-'
    &&& two_digit_field(t, 8, 1, 31)
    &&& t[10] == ' '
    &&& two_digit_field(t, 11, 0, 23)
    &&& t[13] == ':'
    &&& two_digit_field(t, 14, 0, 59)
    &&& t[16] == ':'
    &&& two_digit_field(t, 17, 0, 59)
}

/// The English three-letter month abbreviations.
pub open spec fn short_month_names() -> Seq<Seq<char>> {
    seq!["Jan"@, "Feb"@, "Mar"@, "Apr"@, "May"@, "Jun"@, "Jul"@, "Aug"@, "Sep"@, "Oct"@, "Nov"@, "Dec"@]
}

/// `Mmm DD`: a month abbreviation, a space, the day 01-31.
pub open spec fn short_date_shape(t: Seq<char>) -> bool {
    &&& t.len() == 6
    &&& short_month_names().contains(t.subrange(0, 3))
    &&& t[3] == ' '
    &&& two_digit_field(t, 4, 1, 31)
}

/// The format of a full local timestamp.
pub open spec fn datetime_format() -> Seq<char> {
    "%Y-%m-%d %H:%M:%S"@
}

/// The format of a short local date.
pub open spec fn short_date_format() -> Seq<char> {
    "%b %d"@
}

/// What chrono renders for the instant `ms` (UTC epoch milliseconds) seen
/// at the fixed offset `offset_secs` east of UTC, in format `fmt`; `None`
/// where chrono has no such instant or offset.
pub uninterp spec fn chrono_offset_text(ms: i64, offset_secs: i32, fmt: Seq<char>) -> Option<Seq<char>>;

/// Calls chrono's `FixedOffset::east_opt`, `DateTime::from_timestamp_millis`,
/// `DateTime::with_timezone` and `DateTime::format` (then `to_string`).
/// Claimed: the text is a function of the instant, the offset and the
/// format alone (a fixed offset reads no time-zone data); chrono gives an
/// instant for every timestamp in its range and an offset for every value
/// strictly inside one day; its documented specifiers write `%Y` as four
/// zero-padded digits for years 0..=9999, `%m %d %H %M %S` as two
/// zero-padded digits in their ranges, and `%b` as an English month
/// abbreviation. Only these two formats are admitted: both hold valid
/// specifiers only, so formatting cannot fail.
#[verifier::external_body]
fn offset_time_text(ms: i64, offset_secs: i32, fmt: &str) -> (r: Option<String>)
    requires
        fmt@ == datetime_format() || fmt@ == short_date_format(),
    ensures
        match r {
            Some(t) => chrono_offset_text(ms, offset_secs, fmt@) == Some(t@),
            None => chrono_offset_text(ms, offset_secs, fmt@) is None,
        },
        four_digit_year_range(ms) && -86_400 < offset_secs < 86_400 && fmt@ == datetime_format()
            ==> (r is Some && datetime_shape(r->0@)),
        four_digit_year_range(ms) && -86_400 < offset_secs < 86_400 && fmt@ == short_date_format()
            ==> (r is Some && short_date_shape(r->0@)),
{
    let off = chrono::FixedOffset::east_opt(offset_secs)?;
    let dt = chrono::DateTime::from_timestamp_millis(ms)?;
    Some(dt.with_timezone(&off).format(fmt).to_string())
}

/// The label for instant `ms` at local offset `offset` in format `fmt`:
/// `unknown` where no offset or no rendering exists.
pub open spec fn time_label(ms: i64, offset: Option<i32>, fmt: Seq<char>) -> Seq<char> {
    match offset {
        None => "unknown"@,
        Some(o) => match chrono_offset_text(ms, o, fmt) {
            Some(t) => t,
            None => "unknown"@,
        },
    }
}

/// The full local timestamp label of `ms`.
pub open spec fn datetime_label(ms: i64, offset: Option<i32>) -> Seq<char> {
    time_label(ms, offset, datetime_format())
}

/// The short local date label of `ms`.
pub open spec fn short_date_label(ms: i64, offset: Option<i32>) -> Seq<char> {
    time_label(ms, offset, short_date_format())
}

/// A local rendering, or `unknown` where none exists (an ambiguous or
/// skipped local time).
pub fn local_or_unknown(rendered: Option<String>) -> (s: String)
    ensures
        s@ == (match rendered { Some(t) => t@, None => "unknown"@ }),
{
    match rendered {
        Some(t) => t,
        None => "unknown".to_string(),
    }
}

/// Unix epoch milliseconds → `2026-09-08 14:20:03`, seen at the local
/// offset `offset_secs` (seconds east of UTC, as the machine's time zone
/// gives it for that instant); `unknown` where none exists.
pub fn datetime_ms(ms: i64, offset_secs: Option<i32>) -> (s: String)
    ensures
        s@ == datetime_label(ms, offset_secs),
        offset_secs matches Some(o) && -86_400 < o < 86_400 && four_digit_year_range(ms) ==> datetime_shape(s@),
{
    match offset_secs {
        None => "unknown".to_string(),
        Some(o) => local_or_unknown(offset_time_text(ms, o, "%Y-%m-%d %H:%M:%S")),
    }
}

/// Unix epoch milliseconds → `Sep 08`, seen at the local offset
/// `offset_secs`; `unknown` where none exists.
pub fn date_short(ms: i64, offset_secs: Option<i32>) -> (s: String)
    ensures
        s@ == short_date_label(ms, offset_secs),
        offset_secs matches Some(o) && -86_400 < o < 86_400 && four_digit_year_range(ms) ==> short_date_shape(s@),
{
    match offset_secs {
        None => "unknown".to_string(),
        Some(o) => local_or_unknown(offset_time_text(ms, o, "%b %d")),
    }
}

/// `2^k`.
pub open spec fn two_pow(k: nat) -> nat
    decreases k,
{
    if k == 0 { 1 } else { 2 * two_pow((k - 1) as nat) }
}

/// `2^52 · 10^9`: a fraction `n / 10^9` scaled by `2^k` reaches this bound
/// exactly when its binary64 mantissa has all 53 bits.
pub open spec fn mantissa_bound() -> nat {
    4503599627370496000000000
}

/// The smallest `k >= k0` (at most 100) with `n · 2^k >= 2^52 · 10^9`.
pub open spec fn frac_scale(n: nat, k: nat) -> nat
    decreases 100 - k,
{
    if k >= 100 || n * two_pow(k) >= mantissa_bound() { k } else { frac_scale(n, k + 1) }
}

/// The binary64 value of `nanos / 10^9` is `frac_mantissa(nanos) / 2^frac_scale(nanos, 0)`.
pub open spec fn frac_mantissa(nanos: nat) -> nat {
    round_half_even(nanos * two_pow(frac_scale(nanos, 0)), 1_000_000_000)
}

/// `floor(log2 s)` for `1 <= s < 64`.
pub open spec fn log2_small(s: nat) -> nat {
    if s >= 32 { 5 } else if s >= 16 { 4 } else if s >= 8 { 3 } else if s >= 4 { 2 } else if s >= 2 { 1 } else { 0 }
}

/// Thousandths shown for a sub-second duration: the binary64 value of
/// `nanos / 10^9` rounded to three decimals (ties to even).
pub open spec fn millis_shown(nanos: nat) -> nat {
    let k = frac_scale(nanos, 0);
    round_half_even(frac_mantissa(nanos) * 1000, two_pow(k))
}

/// Tenths shown for `1 <= secs < 60`: the binary64 value of
/// `secs + f64(nanos / 10^9)` rounded to one decimal (ties to even).
pub open spec fn tenths_shown(secs: nat, nanos: nat) -> nat {
    let k = frac_scale(nanos, 0);
    let j = log2_small(secs);
    let v = round_half_even(secs * two_pow(k) + frac_mantissa(nanos), two_pow((k - 52 + j) as nat));
    round_half_even(v * 10, two_pow((52 - j) as nat))
}

/// `d` as three decimal digits (with leading zeros).
pub open spec fn three_digits(d: nat) -> Seq<char> {
    seq![digit_char(((d / 100) % 10) as int), digit_char(((d / 10) % 10) as int), digit_char((d % 10) as int)]
}

/// The text `duration` produces for `secs` whole seconds and `nanos`
/// nanoseconds: `0.050s` under a second, `8.3s` under a minute, else
/// `1m 23s`. The decimals are those of the `f64` seconds value.
pub open spec fn duration_text(secs: nat, nanos: nat) -> Seq<char> {
    if secs == 0 {
        let t = millis_shown(nanos);
        dec(t / 1000) + seq!['.'] + three_digits(t % 1000) + seq!['s']
    } else if secs < 60 {
        let t = tenths_shown(secs, nanos);
        dec(t / 10) + seq!['.', digit_char((t % 10) as int), 's']
    } else {
        dec(secs / 60) + "m "@ + dec(secs % 60) + seq!['s']
    }
}

proof fn lemma_two_pow_add(a: nat, b: nat)
    ensures
        two_pow(a + b) == two_pow(a) * two_pow(b),
    decreases a,
{
    if a > 0 {
        lemma_two_pow_add((a - 1) as nat, b);
        assert(two_pow(a) == 2 * two_pow((a - 1) as nat));
        assert(((a - 1) as nat + b) as nat == (a + b - 1) as nat);
        assert(two_pow(a + b) == 2 * two_pow((a + b - 1) as nat));
        let x = two_pow((a - 1) as nat);
        let y = two_pow(b);
        assert(two_pow(a + b) == 2 * (x * y));
        assert(two_pow(a) * y == 2 * (x * y)) by (nonlinear_arith)
            requires two_pow(a) == 2 * x;
    } else {
        assert(two_pow(0) == 1);
        assert(two_pow(0 + b) == two_pow(b));
    }
}

proof fn lemma_two_pow_pos(a: nat)
    ensures
        two_pow(a) >= 1,
    decreases a,
{
    if a > 0 {
        lemma_two_pow_pos((a - 1) as nat);
    }
}

proof fn lemma_two_pow_small()
    ensures
        two_pow(47) == 140737488355328,
        two_pow(48) == 281474976710656,
        two_pow(49) == 562949953421312,
        two_pow(50) == 1125899906842624,
        two_pow(51) == 2251799813685248,
        two_pow(52) == 4503599627370496,
{
    reveal_with_fuel(two_pow, 53);
}

/// `(j, 2^(52 - j))` for `j = floor(log2 secs)`, `1 <= secs < 60`.
fn log2_and_scale(secs: u64) -> (r: (u64, u128))
    requires
        1 <= secs < 60,
    ensures
        r.0 == log2_small(secs as nat),
        r.1 == two_pow((52 - r.0) as nat),
        r.0 <= 5,
        1 <= r.1 <= 4503599627370496,
{
    proof { lemma_two_pow_small(); }
    if secs >= 32 { (5, 140737488355328) }
    else if secs >= 16 { (4, 281474976710656) }
    else if secs >= 8 { (3, 562949953421312) }
    else if secs >= 4 { (2, 1125899906842624) }
    else if secs >= 2 { (1, 2251799813685248) }
    else { (0, 4503599627370496) }
}

/// `(k, nanos · 2^k, 2^k)` with `k = frac_scale(nanos, 0)`, for `nanos >= 1`.
fn scale_frac(nanos: u32) -> (r: (u64, u128, u128))
    requires
        1 <= nanos < 1_000_000_000,
    ensures
        r.0 == frac_scale(nanos as nat, 0),
        r.1 == nanos * two_pow(r.0 as nat),
        r.2 == two_pow(r.0 as nat),
        53 <= r.0 <= 83,
        r.1 < 2 * mantissa_bound(),
        r.2 < 0x8_0000_0000_0000_0000_0000,
{
    let mut k: u64 = 0;
    let mut p: u128 = nanos as u128;
    let mut pk: u128 = 1;
    assert(two_pow(0) == 1);
    while p < 4503599627370496000000000
        invariant
            k <= 83,
            p == nanos * two_pow(k as nat),
            pk == two_pow(k as nat),
            frac_scale(nanos as nat, k as nat) == frac_scale(nanos as nat, 0),
            1 <= nanos < 1_000_000_000,
            p < 2 * mantissa_bound(),
            pk <= p,
        decreases 100 - k,
    {
        proof { lemma_two_pow_pos(k as nat); }
        if k >= 83 {
            proof {
                lemma_two_pow_add(52, 31);
                lemma_two_pow_small();
                reveal_with_fuel(two_pow, 32);
                assert(two_pow(31) == 2147483648);
                assert(two_pow(83) == two_pow(52) * two_pow(31));
                assert(pk >= two_pow(83));
                assert(p >= 9671406556917033397649408);
                assert(false);
            }
        }
        assert(two_pow((k + 1) as nat) == 2 * two_pow(k as nat));
        p = p * 2;
        pk = pk * 2;
        assert(p == nanos * two_pow((k + 1) as nat)) by (nonlinear_arith)
            requires p == 2 * (nanos * two_pow(k as nat)), two_pow((k + 1) as nat) == 2 * two_pow(k as nat) { }
        k = k + 1;
    }
    proof {
        if k < 53 {
            lemma_two_pow_small();
            assert(two_pow(52) == 4503599627370496);
            let kk = k as nat;
            lemma_two_pow_add(kk, (52 - kk) as nat);
            lemma_two_pow_pos((52 - kk) as nat);
            assert(pk * two_pow((52 - kk) as nat) == 4503599627370496);
            assert(pk <= 4503599627370496) by (nonlinear_arith)
                requires pk * two_pow((52 - kk) as nat) == 4503599627370496, two_pow((52 - kk) as nat) >= 1 { }
            assert(p < 4503599627370496000000000) by (nonlinear_arith)
                requires p == nanos * pk, nanos < 1_000_000_000, pk <= 4503599627370496 { }
        }
    }
    (k, p, pk)
}

/// The text of a duration of `secs` seconds and `nanos` nanoseconds.
pub fn duration_parts_text(secs: u64, nanos: u32) -> (s: String)
    requires
        nanos < 1_000_000_000,
    ensures
        s@ == duration_text(secs as nat, nanos as nat),
{
    let mut out = String::new();
    if secs == 0 {
        let t: u128 = if nanos == 0 {
            proof {
                assert(frac_scale(0, 0) == 100) by {
                    assert forall|k: nat| k <= 100 implies frac_scale(0, k) == 100 by {
                        lemma_frac_scale_zero(k);
                    }
                }
                lemma_two_pow_pos(100);
                lemma_rhe_zero(1_000_000_000);
                assert(0 * two_pow(100) == 0) by (nonlinear_arith);
                assert(frac_mantissa(0) == 0);
                lemma_rhe_zero(two_pow(100));
                assert(millis_shown(0) == 0);
            }
            0
        } else {
            let (k, p, pk) = scale_frac(nanos);
            let m = round_half_even_exec(p, 1_000_000_000);
            assert(m <= p / 1_000_000_000 + 1);
            assert(m * 1000 < 0x1_0000_0000_0000_0000) by (nonlinear_arith)
                requires m <= p / 1_000_000_000 + 1, p < 2 * mantissa_bound() { }
            proof { lemma_two_pow_pos(k as nat); }
            let t = round_half_even_exec(m * 1000, pk);
            assert(m == frac_mantissa(nanos as nat));
            assert(t == millis_shown(nanos as nat));
            t
        };
        assert(t == millis_shown(nanos as nat));
        assert(t <= 1000) by {
            lemma_millis_bound(nanos as nat);
        }
        push_dec(&mut out, t / 1000);
        push_char(&mut out, '.');
        let r = t % 1000;
        push_char(&mut out, digit((r / 100) % 10));
        push_char(&mut out, digit((r / 10) % 10));
        push_char(&mut out, digit(r % 10));
        push_char(&mut out, 's');
        assert(out@ =~= duration_text(secs as nat, nanos as nat));
    } else if secs < 60 {
        let (j, den2) = log2_and_scale(secs);
        let t: u128 = if nanos == 0 {
            proof {
                assert(frac_scale(0, 0) == 100) by {
                    assert forall|k: nat| k <= 100 implies frac_scale(0, k) == 100 by {
                        lemma_frac_scale_zero(k);
                    }
                }
                lemma_rhe_zero(1_000_000_000);
                assert(0 * two_pow(100) == 0) by (nonlinear_arith);
                assert(frac_mantissa(0) == 0);
                lemma_tenths_exact(secs as nat);
            }
            (secs as u128) * 10
        } else {
            let (k, p, pk) = scale_frac(nanos);
            let m = round_half_even_exec(p, 1_000_000_000);
            assert(m <= p / 1_000_000_000 + 1);
            proof { lemma_two_pow_pos((52 - j) as nat); }
            let den1: u128 = pk / den2;
            proof {
                lemma_two_pow_add((k - 52 + j) as nat, (52 - j) as nat);
                lemma_two_pow_pos((k - 52 + j) as nat);
                lemma_two_pow_pos((52 - j) as nat);
                assert(pk == two_pow((k - 52 + j) as nat) * den2);
                assert(den1 == two_pow((k - 52 + j) as nat)) by (nonlinear_arith)
                    requires pk == two_pow((k - 52 + j) as nat) * den2, den1 == pk / den2, den2 >= 1 { }
            }
            assert((secs as u128) * pk + m < 0x1_0000_0000_0000_0000_0000_0000) by (nonlinear_arith)
                requires secs < 60, pk < 0x8_0000_0000_0000_0000_0000, m <= p / 1_000_000_000 + 1, p < 2 * mantissa_bound() { }
            assert(p < 1_000_000_000 * pk) by (nonlinear_arith)
                requires p == nanos * pk, nanos < 1_000_000_000, pk >= 1 { }
            assert(m <= pk);
            let v = round_half_even_exec((secs as u128) * pk + m, den1);
            proof { lemma_v_bound(secs as nat, pk as nat, m as nat, den1 as nat, den2 as nat, v as nat); }
            round_half_even_exec(v * 10, den2)
        };
        assert(t == tenths_shown(secs as nat, nanos as nat));
        push_dec(&mut out, t / 10);
        push_char(&mut out, '.');
        push_char(&mut out, digit(t % 10));
        push_char(&mut out, 's');
        assert(out@ =~= duration_text(secs as nat, nanos as nat));
    } else {
        push_dec(&mut out, (secs / 60) as u128);
        out.append("m ");
        push_dec(&mut out, (secs % 60) as u128);
        push_char(&mut out, 's');
        assert(out@ =~= duration_text(secs as nat, nanos as nat));
    }
    out
}

proof fn lemma_rhe_zero(d: nat)
    requires
        d >= 1,
    ensures
        round_half_even(0, d) == 0,
{
    vstd::arithmetic::div_mod::lemma_basic_div(0, d as int);
    vstd::arithmetic::div_mod::lemma_small_mod(0, d);
}

proof fn lemma_frac_scale_zero(k: nat)
    requires
        k <= 100,
    ensures
        frac_scale(0, k) == 100,
    decreases 100 - k,
{
    if k < 100 {
        lemma_frac_scale_zero(k + 1);
    }
}

proof fn lemma_millis_bound(nanos: nat)
    requires
        nanos < 1_000_000_000,
    ensures
        millis_shown(nanos) <= 1000,
{
    let k = frac_scale(nanos, 0);
    let pk = two_pow(k);
    lemma_two_pow_pos(k);
    let m = frac_mantissa(nanos);
    assert(m <= (nanos * pk) / 1_000_000_000 + 1);
    assert(m <= pk) by (nonlinear_arith)
        requires m <= (nanos * pk) / 1_000_000_000 + 1, nanos < 1_000_000_000, pk >= 1 { }
    assert(m * 1000 <= pk * 1000) by (nonlinear_arith) requires m <= pk { }
    assert((m * 1000) / pk <= 1000) by (nonlinear_arith) requires m * 1000 <= pk * 1000, pk >= 1 { }
    assert(millis_shown(nanos) <= (m * 1000) / pk + 1);
    if millis_shown(nanos) == (m * 1000) / pk + 1 && (m * 1000) / pk == 1000 {
        assert(m * 1000 == pk * 1000) by (nonlinear_arith)
            requires (m * 1000) / pk == 1000, m * 1000 <= pk * 1000, pk >= 1 { }
        assert((m * 1000) % pk == 0) by (nonlinear_arith) requires m * 1000 == pk * 1000, pk >= 1 { }
    }
}

proof fn lemma_tenths_exact(secs: nat)
    requires
        1 <= secs < 60,
    ensures
        tenths_shown(secs, 0) == secs * 10,
{
    let k: nat = 100;
    let j = log2_small(secs);
    assert(frac_scale(0, 0) == 100) by {
        assert forall|kk: nat| kk <= 100 implies frac_scale(0, kk) == 100 by {
            lemma_frac_scale_zero(kk);
        }
    }
    let a = two_pow((k - 52 + j) as nat);
    let b = two_pow((52 - j) as nat);
    lemma_two_pow_add((k - 52 + j) as nat, (52 - j) as nat);
    lemma_two_pow_pos((k - 52 + j) as nat);
    lemma_two_pow_pos((52 - j) as nat);
    assert(two_pow(k) == a * b);
    lemma_rhe_zero(1_000_000_000);
    assert(0 * two_pow(100) == 0) by (nonlinear_arith);
    assert(frac_mantissa(0) == 0);
    assert(secs * (a * b) == (secs * b) * a) by (nonlinear_arith);
    vstd::arithmetic::div_mod::lemma_div_multiples_vanish((secs * b) as int, a as int);
    vstd::arithmetic::div_mod::lemma_mod_multiples_basic((secs * b) as int, a as int);
    assert(a * (secs * b) == (secs * b) * a) by (nonlinear_arith);
    assert(round_half_even(secs * two_pow(k) + 0, a) == secs * b);
    assert(secs * b * 10 == (secs * 10) * b) by (nonlinear_arith);
    assert(b * (secs * 10) == (secs * 10) * b) by (nonlinear_arith);
    vstd::arithmetic::div_mod::lemma_div_multiples_vanish((secs * 10) as int, b as int);
    vstd::arithmetic::div_mod::lemma_mod_multiples_basic((secs * 10) as int, b as int);
}

proof fn lemma_v_bound(secs: nat, pk: nat, m: nat, den1: nat, den2: nat, v: nat)
    requires
        1 <= secs < 60,
        den1 >= 1,
        den2 >= 1,
        den2 <= 4503599627370496,
        pk == den1 * den2,
        v == round_half_even(secs * pk + m, den1),
        m <= pk,
    ensures
        v * 10 < 0x1_0000_0000_0000_0000_0000_0000,
{
    assert(v <= (secs * pk + m) / den1 + 1);
    assert((secs * pk + m) / den1 <= 61 * den2) by (nonlinear_arith)
        requires pk == den1 * den2, m <= pk, secs < 60, den1 >= 1 { }
}

/// `50 ms` scale → `0.050s`; `8.3s` under a minute; else `1m 23s`.
pub fn duration(e: Elapsed) -> (s: String)
    ensures
        s@ == duration_text(e@.0 as nat, e@.1 as nat),
{
    let secs = e.as_secs();
    let nanos = e.subsec_nanos();
    duration_parts_text(secs, nanos)
}

} // verus!
