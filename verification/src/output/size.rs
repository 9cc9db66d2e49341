//! Human-readable byte sizes (base 1024, one decimal).
//!
//! Examples: `999 B`, `1.0 KB`, `238.7 GB`. Sizes of at least one KiB are
//! shown as the binary floating-point value of the byte count, scaled by
//! powers of 1024 and rounded to one decimal (ties to even), which is exactly
//! what printing an `f64` with one decimal does.
use vstd::prelude::*;
use crate::text::{dec, digit, digit_char, push_char, push_dec};

verus! {

/// `num / den` rounded to the nearest integer, ties to the even neighbour.
pub open spec fn round_half_even(num: nat, den: nat) -> nat
    recommends
        den > 0,
{
    let q = num / den;
    let r = num % den;
    if 2 * r > den || (2 * r == den && q % 2 == 1) {
        q + 1
    } else {
        q
    }
}

/// Spacing of binary64 values around a `u64` value `b`.
pub open spec fn f64_ulp(b: nat) -> nat {
    if b < 0x20_0000_0000_0000 { 1 }
    else if b < 0x40_0000_0000_0000 { 2 }
    else if b < 0x80_0000_0000_0000 { 4 }
    else if b < 0x100_0000_0000_0000 { 8 }
    else if b < 0x200_0000_0000_0000 { 16 }
    else if b < 0x400_0000_0000_0000 { 32 }
    else if b < 0x800_0000_0000_0000 { 64 }
    else if b < 0x1000_0000_0000_0000 { 128 }
    else if b < 0x2000_0000_0000_0000 { 256 }
    else if b < 0x4000_0000_0000_0000 { 512 }
    else if b < 0x8000_0000_0000_0000 { 1024 }
    else { 2048 }
}

/// The value of `b as f64` (round to nearest, ties to even).
pub open spec fn f64_of(b: nat) -> nat {
    round_half_even(b, f64_ulp(b)) * f64_ulp(b)
}

/// `1024^k` for the unit steps used here.
pub open spec fn kib_pow(k: nat) -> nat
    decreases k,
{
    if k == 0 { 1 } else { 1024 * kib_pow((k - 1) as nat) }
}

/// How many times the value is divided by 1024 (at most five: PB).
pub open spec fn unit_index(v: nat) -> nat {
    if v >= kib_pow(5) { 5 }
    else if v >= kib_pow(4) { 4 }
    else if v >= kib_pow(3) { 3 }
    else if v >= kib_pow(2) { 2 }
    else if v >= kib_pow(1) { 1 }
    else { 0 }
}

/// The unit label for `k` divisions by 1024.
pub open spec fn unit_name(k: nat) -> Seq<char> {
    if k == 0 { "B"@ }
    else if k == 1 { "KB"@ }
    else if k == 2 { "MB"@ }
    else if k == 3 { "GB"@ }
    else if k == 4 { "TB"@ }
    else { "PB"@ }
}

/// Tenths of the displayed value: `round(10 * v / 1024^k)`.
pub open spec fn tenths(v: nat) -> nat {
    round_half_even(v * 10, kib_pow(unit_index(v)))
}

/// The text `format` produces for `bytes`.
pub open spec fn size_text(bytes: nat) -> Seq<char> {
    if bytes < 1024 {
        dec(bytes) + " B"@
    } else {
        let v = f64_of(bytes);
        let t = tenths(v);
        dec(t / 10) + seq!['.', digit_char((t % 10) as int), ' '] + unit_name(unit_index(v))
    }
}

/// The text `format_signed` produces for a signed delta.
pub open spec fn signed_size_text(delta: int) -> Seq<char> {
    if delta > 0 {
        seq!['+'] + size_text(clamp_u64(delta))
    } else if delta < 0 {
        seq!['-'] + size_text(clamp_u64(-delta))
    } else {
        size_text(0)
    }
}

/// A non-negative magnitude capped at `u64::MAX`.
pub open spec fn clamp_u64(m: int) -> nat {
    if m > u64::MAX { u64::MAX as nat } else if m < 0 { 0 } else { m as nat }
}

fn ulp_exec(b: u64) -> (u: u128)
    ensures
        u == f64_ulp(b as nat),
{
    if b < 0x20_0000_0000_0000 { 1 }
    else if b < 0x40_0000_0000_0000 { 2 }
    else if b < 0x80_0000_0000_0000 { 4 }
    else if b < 0x100_0000_0000_0000 { 8 }
    else if b < 0x200_0000_0000_0000 { 16 }
    else if b < 0x400_0000_0000_0000 { 32 }
    else if b < 0x800_0000_0000_0000 { 64 }
    else if b < 0x1000_0000_0000_0000 { 128 }
    else if b < 0x2000_0000_0000_0000 { 256 }
    else if b < 0x4000_0000_0000_0000 { 512 }
    else if b < 0x8000_0000_0000_0000 { 1024 }
    else { 2048 }
}

/// `num / den` rounded half to even.
pub fn round_half_even_exec(num: u128, den: u128) -> (r: u128)
    requires
        den > 0,
        num < u128::MAX / 4,
        den < u128::MAX / 4,
    ensures
        r == round_half_even(num as nat, den as nat),
{
    let q = num / den;
    let rem = num % den;
    if 2 * rem > den || (2 * rem == den && q % 2 == 1) {
        q + 1
    } else {
        q
    }
}

proof fn lemma_kib_pow_values()
    ensures
        kib_pow(0) == 1,
        kib_pow(1) == 1024,
        kib_pow(2) == 1048576,
        kib_pow(3) == 1073741824,
        kib_pow(4) == 1099511627776,
        kib_pow(5) == 1125899906842624,
{
    reveal_with_fuel(kib_pow, 6);
}

proof fn lemma_f64_of_bound(b: nat)
    requires
        b <= u64::MAX,
    ensures
        f64_of(b) <= 0x1_0000_0000_0000_0000,
        b >= 1024 ==> f64_of(b) >= 1024,
{
    let u = f64_ulp(b);
    let q = b / u;
    let r = b % u;
    assert(u > 0);
    vstd::arithmetic::div_mod::lemma_fundamental_div_mod(b as int, u as int);
    assert(b == u * q + r);
    assert(q * u <= b) by (nonlinear_arith)
        requires b == u * q + r, r >= 0;
    assert((q + 1) * u <= 0x1_0000_0000_0000_0000) by (nonlinear_arith)
        requires
            b == u * q + r,
            0 <= r < u,
            b <= u64::MAX,
            (u == 1 && b < 0x20_0000_0000_0000) || (u == 2048) || (u <= 1024 && b < 0x8000_0000_0000_0000),
            u == 1 || u == 2 || u == 4 || u == 8 || u == 16 || u == 32 || u == 64 || u == 128
                || u == 256 || u == 512 || u == 1024 || u == 2048;
    assert(round_half_even(b, u) * u <= (q + 1) * u) by (nonlinear_arith)
        requires round_half_even(b, u) <= q + 1;
    if b >= 1024 {
        if u == 1 {
            assert(round_half_even(b, u) == b);
        } else {
            assert(q >= 1) by (nonlinear_arith)
                requires b == u * q + r, 0 <= r < u, b >= 0x20_0000_0000_0000, u <= 2048;
            assert(round_half_even(b, u) * u >= q * u) by (nonlinear_arith)
                requires round_half_even(b, u) >= q;
            assert(q * u >= 1024) by (nonlinear_arith)
                requires b == u * q + r, 0 <= r < u, b >= 0x20_0000_0000_0000, u <= 2048;
        }
    }
}

/// Format a non-negative byte count.
pub fn format(bytes: u64) -> (s: String)
    ensures
        s@ == size_text(bytes as nat),
{
    let mut out = String::new();
    if bytes < 1024 {
        push_dec(&mut out, bytes as u128);
        out.append(" B");
        assert(out@ =~= size_text(bytes as nat));
        return out;
    }
    let u = ulp_exec(bytes);
    proof {
        lemma_f64_of_bound(bytes as nat);
        lemma_kib_pow_values();
    }
    let q = round_half_even_exec(bytes as u128, u);
    assert(q * u == f64_of(bytes as nat));
    let v: u128 = q * u;
    assert(v == f64_of(bytes as nat));
    let (k, den, name): (u128, u128, &str) = if v >= 1125899906842624 {
        (5, 1125899906842624, "PB")
    } else if v >= 1099511627776 {
        (4, 1099511627776, "TB")
    } else if v >= 1073741824 {
        (3, 1073741824, "GB")
    } else if v >= 1048576 {
        (2, 1048576, "MB")
    } else {
        (1, 1024, "KB")
    };
    assert(k == unit_index(v as nat));
    assert(den == kib_pow(unit_index(v as nat)));
    assert(name@ == unit_name(unit_index(v as nat)));
    let t = round_half_even_exec(v * 10, den);
    assert(t == tenths(v as nat));
    push_dec(&mut out, t / 10);
    push_char(&mut out, '.');
    push_char(&mut out, digit(t % 10));
    push_char(&mut out, ' ');
    out.append(name);
    assert(out@ =~= size_text(bytes as nat));
    out
}

/// Format a signed delta: `+2.9 KB`, `-300 B`, `0 B`. Magnitudes beyond
/// `u64::MAX` are shown as `u64::MAX`.
pub fn format_signed(delta: i128) -> (s: String)
    ensures
        s@ == signed_size_text(delta as int),
{
    if delta > 0 {
        let m: u64 = if delta > u64::MAX as i128 { u64::MAX } else { delta as u64 };
        let mut out = String::new();
        push_char(&mut out, '+');
        let body = format(m);
        out.append(body.as_str());
        assert(out@ =~= signed_size_text(delta as int));
        out
    } else if delta < 0 {
        let m: u64 = if delta < -(u64::MAX as i128) { u64::MAX } else { (-delta) as u64 };
        let mut out = String::new();
        push_char(&mut out, '-');
        let body = format(m);
        out.append(body.as_str());
        assert(out@ =~= signed_size_text(delta as int));
        out
    } else {
        format(0)
    }
}

proof fn lemma_f64_of_exact_or_large(b: nat)
    requires
        b <= u64::MAX,
    ensures
        b < 0x20_0000_0000_0000 ==> f64_of(b) == b,
        b >= 0x20_0000_0000_0000 ==> f64_of(b) >= 1125899906842624,
{
    let u = f64_ulp(b);
    if b < 0x20_0000_0000_0000 {
        assert(u == 1);
        assert(b / 1 == b && b % 1 == 0);
    } else {
        assert(2 <= u <= 2048);
        let q = b / u;
        vstd::arithmetic::div_mod::lemma_fundamental_div_mod(b as int, u as int);
        assert(b % u < u) by { vstd::arithmetic::div_mod::lemma_mod_pos_bound(b as int, u as int); }
        assert(round_half_even(b, u) >= q);
        assert(round_half_even(b, u) * u >= q * u) by (nonlinear_arith)
            requires round_half_even(b, u) >= q, u >= 0;
    }
}

/// `t` ends with `suffix`.
pub open spec fn ends_with(t: Seq<char>, suffix: Seq<char>) -> bool {
    t.len() >= suffix.len() && t.subrange(t.len() - suffix.len(), t.len() as int) == suffix
}

/// Law: the unit of a formatted size names the power of 1024 the bytes
/// were divided by: below 1 KiB the text ends in ` B`, from 1 KiB in ` KB`,
/// from 1 MiB in ` MB`, from 1 GiB in ` GB`, from 1 TiB in ` TB`, from
/// 1 PiB in ` PB`.
pub proof fn law_unit_names_the_power_of_1024(bytes: u64)
    ensures
        bytes < 1024 ==> ends_with(size_text(bytes as nat), " B"@),
        1024 <= bytes < 1048576 ==> ends_with(size_text(bytes as nat), " KB"@),
        1048576 <= bytes < 1073741824 ==> ends_with(size_text(bytes as nat), " MB"@),
        1073741824 <= bytes < 1099511627776 ==> ends_with(size_text(bytes as nat), " GB"@),
        1099511627776 <= bytes < 1125899906842624 ==> ends_with(size_text(bytes as nat), " TB"@),
        1125899906842624 <= bytes ==> ends_with(size_text(bytes as nat), " PB"@),
{
    reveal_strlit(" B");
    reveal_strlit(" KB");
    reveal_strlit(" MB");
    reveal_strlit(" GB");
    reveal_strlit(" TB");
    reveal_strlit(" PB");
    reveal_strlit("B");
    reveal_strlit("KB");
    reveal_strlit("MB");
    reveal_strlit("GB");
    reveal_strlit("TB");
    reveal_strlit("PB");
    lemma_kib_pow_values();
    let b = bytes as nat;
    let t = size_text(b);
    if b < 1024 {
        assert(t.subrange(t.len() - 2, t.len() as int) =~= " B"@);
    } else {
        lemma_f64_of_exact_or_large(b);
        let v = f64_of(b);
        let tt = tenths(v);
        let head = dec(tt / 10) + seq!['.', digit_char((tt % 10) as int)];
        let name = unit_name(unit_index(v));
        assert(t =~= head + (seq![' '] + name));
        assert(t.subrange(t.len() - (name.len() + 1), t.len() as int) =~= seq![' '] + name);
        assert(seq![' '] + "KB"@ =~= " KB"@);
        assert(seq![' '] + "MB"@ =~= " MB"@);
        assert(seq![' '] + "GB"@ =~= " GB"@);
        assert(seq![' '] + "TB"@ =~= " TB"@);
        assert(seq![' '] + "PB"@ =~= " PB"@);
    }
}

} // verus!
