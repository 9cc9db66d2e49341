//! Deterministic benchmark tree planning.
//!
//! A reproducible directory tree for benchmarking the scanner without
//! writing real random data across dozens of GB:
//! - a seeded xorshift64 PRNG makes every run with the same seed identical;
//! - the plan places exactly `files` files;
//! - tiny / small files hold a handful of bytes, large files are sparse.
//!
//! This module decides the shape, the file sizes and whether a target may
//! be used; the program creates the directories and files.
use vstd::prelude::*;
use crate::pathutil::{join, path_join};
use crate::text::{dec, push_char, push_dec, push_repeat, repeat_char};

verus! {

/// Tree shapes.
#[derive(Debug, Clone, Copy, PartialEq, Eq, Structural)]
pub enum BenchMode {
    /// ~100-200 directories, many files each.
    Wide,
    /// One deep chain, files spread along the levels.
    Deep,
    /// Repeated project-like trees (`p0000/src`, `p0000/docs`, ...).
    Mixed,
    /// Many tiny files (0-64 bytes).
    Tiny,
    /// Few large (sparse) files.
    Large,
}

/// Generator parameters.
#[derive(Debug, Clone)]
pub struct GenConfig {
    /// Exact number of files to create.
    pub files: u64,
    pub mode: BenchMode,
    /// PRNG seed; same seed ⇒ identical tree.
    pub seed: u64,
    /// Replace a pre-existing non-empty target directory.
    pub force: bool,
}

/// What was created.
#[derive(Debug, Clone, PartialEq, Eq)]
pub struct GenStats {
    pub root: String,
    pub files_created: u64,
    pub dirs_created: u64,
}

impl GenConfig {
    /// A reasonable default: mixed project tree, fixed seed, no force.
    pub fn default(files: u64) -> (c: Self)
        ensures
            c.files == files,
            c.mode == BenchMode::Mixed,
            c.seed == 0x5eed,
            !c.force,
    {
        GenConfig { files, mode: BenchMode::Mixed, seed: 0x5eed, force: false }
    }
}

/// xorshift64: a tiny deterministic PRNG (benchmark only; the `%` bias is
/// fine).
#[derive(Debug, Clone, Copy, PartialEq, Eq)]
pub struct Rng(pub u64);

/// One xorshift64 step (13, 7, 17).
pub open spec fn xorshift(x: u64) -> u64 {
    let a = x ^ (x << 13u64);
    let b = a ^ (a >> 7u64);
    b ^ (b << 17u64)
}

impl Rng {
    /// The generator for a configuration: the seed mixed with the file
    /// count (`seed ^ files · 0x9E3779B97F4A7C15`, wrapping).
    pub fn for_config(cfg: &GenConfig) -> (r: Rng)
        ensures
            r.0 == cfg.seed ^ cfg.files.wrapping_mul(0x9E37_79B9_7F4A_7C15),
    {
        Rng(cfg.seed ^ cfg.files.wrapping_mul(0x9E37_79B9_7F4A_7C15))
    }

    /// Advance and return the new state.
    pub fn next(&mut self) -> (x: u64)
        ensures
            x == xorshift(old(self).0),
            final(self).0 == x,
    {
        let mut x = self.0;
        x = x ^ (x << 13u64);
        x = x ^ (x >> 7u64);
        x = x ^ (x << 17u64);
        self.0 = x;
        x
    }

    /// A value below `n` (0 when `n == 0`, without advancing).
    pub fn below(&mut self, n: u64) -> (v: u64)
        ensures
            n == 0 ==> v == 0 && final(self).0 == old(self).0,
            n > 0 ==> final(self).0 == xorshift(old(self).0) && v == xorshift(old(self).0) % n,
    {
        if n == 0 {
            return 0;
        }
        self.next() % n
    }
}

/// Size of the next file of a tree of `mode`, drawn from `r`: sparse 1-8 MiB
/// for `Large`, 0-64 bytes for `Tiny`, else 1-128 bytes.
pub open spec fn file_size_of(mode: BenchMode, state: u64) -> u64 {
    let x = xorshift(state);
    match mode {
        BenchMode::Large => (1u64 << ((x % 4) + 20) as u64),
        BenchMode::Tiny => x % 65,
        _ => ((x % 128) + 1) as u64,
    }
}

/// The size of the next file, advancing the generator once.
pub fn next_file_size(rng: &mut Rng, mode: BenchMode) -> (size: u64)
    ensures
        size == file_size_of(mode, old(rng).0),
        final(rng).0 == xorshift(old(rng).0),
{
    match mode {
        BenchMode::Large => {
            let b = rng.below(4);
            1u64 << (b + 20)
        },
        BenchMode::Tiny => rng.below(65),
        _ => rng.below(128) + 1,
    }
}

/// Why a generation request is refused.
#[derive(Debug, Clone, Copy, PartialEq, Eq, Structural)]
pub enum RefusalKind {
    /// The request itself is invalid (no files asked for).
    InvalidInput,
    /// The target holds data and replacing it was not asked for.
    AlreadyExists,
}

/// A refused generation request: its kind and the message for the user.
#[derive(Debug, Clone, PartialEq, Eq)]
pub struct BenchRefusal {
    pub kind: RefusalKind,
    pub message: String,
}

/// Whether a generation request may proceed: `Ok(true)` when an existing
/// non-empty target must be cleared first (only with `force`), `Ok(false)`
/// when it can be used as it is.
pub fn check_request(root: &str, cfg: &GenConfig, target_non_empty: bool) -> (r: Result<bool, BenchRefusal>)
    ensures
        cfg.files == 0 ==> (r is Err && r->Err_0.kind == RefusalKind::InvalidInput && r->Err_0.message@ == "files must be >= 1"@),
        cfg.files > 0 && target_non_empty && !cfg.force ==> (r is Err && r->Err_0.kind == RefusalKind::AlreadyExists
            && r->Err_0.message@ == "target `"@ + root@
            + "` is not empty; use --force to replace it (nothing was deleted without it)"@),
        cfg.files > 0 && !(target_non_empty && !cfg.force) ==> r == Ok::<bool, BenchRefusal>(target_non_empty),
{
    if cfg.files == 0 {
        return Err(BenchRefusal { kind: RefusalKind::InvalidInput, message: "files must be >= 1".to_string() });
    }
    if target_non_empty {
        if !cfg.force {
            let mut m = String::new();
            m.append("target `");
            m.append(root);
            m.append("` is not empty; use --force to replace it (nothing was deleted without it)");
            return Err(BenchRefusal { kind: RefusalKind::AlreadyExists, message: m });
        }
        return Ok(true);
    }
    Ok(false)
}

/// `x` clamped into `[lo, hi]`.
pub open spec fn clamp_nat(x: nat, lo: nat, hi: nat) -> nat {
    if x < lo { lo } else if x > hi { hi } else { x }
}

/// `i` in decimal, zero-padded to four digits.
pub open spec fn zero_pad4(i: nat) -> Seq<char> {
    let d = dec(i);
    if d.len() >= 4 { d } else { repeat_char('0', (4 - d.len()) as nat) + d }
}

/// `root/lvl/lvl/…` with `k` levels.
pub open spec fn deep_path(root: Seq<char>, k: nat) -> Seq<char>
    decreases k,
{
    if k == 0 { root } else { path_join(deep_path(root, (k - 1) as nat), "lvl"@) }
}

/// The three subdirectories of a mixed project.
pub open spec fn mixed_sub(j: nat) -> Seq<char> {
    if j == 0 { "src"@ } else if j == 1 { "docs"@ } else { "assets"@ }
}

/// How many directories the plan has.
pub open spec fn plan_len(mode: BenchMode, files: nat) -> nat {
    match mode {
        BenchMode::Wide => clamp_nat(files, 1, 200),
        BenchMode::Deep => clamp_nat(files, 4, 64),
        BenchMode::Mixed => 3 * clamp_nat(files, 1, 200),
        BenchMode::Tiny => clamp_nat(files, 1, 500),
        BenchMode::Large => 1,
    }
}

/// The `i`-th planned directory.
pub open spec fn plan_path(root: Seq<char>, mode: BenchMode, i: nat) -> Seq<char> {
    match mode {
        BenchMode::Wide => path_join(root, seq!['d'] + zero_pad4(i)),
        BenchMode::Deep => deep_path(root, i + 1),
        BenchMode::Mixed => path_join(path_join(root, seq!['p'] + zero_pad4(i / 3)), mixed_sub(i % 3)),
        BenchMode::Tiny => path_join(root, seq!['t'] + zero_pad4(i)),
        BenchMode::Large => path_join(root, "large"@),
    }
}

/// `files` spread evenly over `d` directories, the first `files % d` taking
/// one more.
pub open spec fn even_share(files: nat, d: nat, i: nat) -> nat {
    files / d + if i < files % d { 1nat } else { 0nat }
}

/// Files the shape itself puts in the `i`-th directory (before the exact
/// count is reconciled).
pub open spec fn shape_count(mode: BenchMode, files: nat, i: nat) -> nat {
    match mode {
        BenchMode::Wide => even_share(files, clamp_nat(files, 1, 200), i),
        BenchMode::Deep => {
            let d = clamp_nat(files, 4, 64);
            let f = files / d;
            f + if i + 1 == d { (files - f * d) as nat } else { 0nat }
        },
        BenchMode::Mixed => even_share(files / clamp_nat(files, 1, 200), 3, i % 3),
        BenchMode::Tiny => even_share(files, clamp_nat(files, 1, 500), i),
        BenchMode::Large => if files < 50 { files } else { 50 },
    }
}

/// Sum of the shape counts of the first `n` directories.
pub open spec fn shape_sum(mode: BenchMode, files: nat, n: nat) -> nat
    decreases n,
{
    if n == 0 { 0 } else { shape_sum(mode, files, (n - 1) as nat) + shape_count(mode, files, (n - 1) as nat) }
}

/// Sum of the counts of the first `n` plan rows.
pub open spec fn plan_sum(p: Seq<(String, u64)>, n: int) -> int
    decreases n,
{
    if n <= 0 { 0 } else { plan_sum(p, n - 1) + p[n - 1].1 }
}

/// The exact plan: the shape's directories, the shape's counts, and the
/// first directory absorbing whatever the shape left over.
pub open spec fn plan_spec(p: Seq<(String, u64)>, root: Seq<char>, mode: BenchMode, files: nat) -> bool {
    let n = plan_len(mode, files);
    &&& p.len() == n
    &&& forall|i: int| 0 <= i < n ==> (#[trigger] p[i]).0@ == plan_path(root, mode, i as nat)
    &&& forall|i: int| 0 < i < n ==> (#[trigger] p[i]).1 == shape_count(mode, files, i as nat)
    &&& p[0].1 == shape_count(mode, files, 0) + files - shape_sum(mode, files, n)
}

/// Appends `i` zero-padded to four digits.
fn push_pad4(out: &mut String, i: u64)
    ensures
        final(out)@ == old(out)@ + zero_pad4(i as nat),
{
    let ghost start = out@;
    let mut d = String::new();
    push_dec(&mut d, i as u128);
    let len = d.as_str().unicode_len();
    if len < 4 {
        push_repeat(out, '0', 4 - len);
    }
    out.append(d.as_str());
    assert(out@ =~= start + zero_pad4(i as nat));
}

fn named(root: &str, c: char, i: u64) -> (p: String)
    ensures
        p@ == path_join(root@, seq![c] + zero_pad4(i as nat)),
{
    let mut name = String::new();
    push_char(&mut name, c);
    push_pad4(&mut name, i);
    assert(name@ =~= seq![c] + zero_pad4(i as nat));
    join(root, name.as_str())
}

/// The evenly shared shapes (`Wide`, `Tiny`): `d` directories named `c0000`…
fn plan_even(root: &str, c: char, files: u64, d: u64, Ghost(mode): Ghost<BenchMode>) -> (r: (Vec<(String, u64)>, u64))
    requires
        1 <= d <= 500,
        (mode == BenchMode::Wide && c == 'd' && d == clamp_nat(files as nat, 1, 200))
            || (mode == BenchMode::Tiny && c == 't' && d == clamp_nat(files as nat, 1, 500)),
    ensures
        r.0@.len() == d,
        forall|i: int| 0 <= i < d ==> (#[trigger] r.0@[i]).0@ == plan_path(root@, mode, i as nat),
        forall|i: int| 0 <= i < d ==> (#[trigger] r.0@[i]).1 == shape_count(mode, files as nat, i as nat),
        r.1 == shape_sum(mode, files as nat, d as nat),
        r.1 == files,
{
    let q = files / d;
    let rem = files % d;
    let mut out: Vec<(String, u64)> = Vec::new();
    let mut sum: u64 = 0;
    let mut i: u64 = 0;
    while i < d
        invariant
            i <= d,
            1 <= d <= 500,
            q == files / d,
            rem == files % d,
            (mode == BenchMode::Wide && c == 'd' && d == clamp_nat(files as nat, 1, 200))
                || (mode == BenchMode::Tiny && c == 't' && d == clamp_nat(files as nat, 1, 500)),
            out@.len() == i,
            forall|k: int| 0 <= k < i ==> (#[trigger] out@[k]).0@ == plan_path(root@, mode, k as nat),
            forall|k: int| 0 <= k < i ==> (#[trigger] out@[k]).1 == shape_count(mode, files as nat, k as nat),
            sum == shape_sum(mode, files as nat, i as nat),
            sum == i * q + (if i < rem { i } else { rem }),
        decreases d - i,
    {
        let extra: u64 = if i < rem { 1 } else { 0 };
        assert(i * q + q <= files) by (nonlinear_arith)
            requires i < d, q == files / d, d >= 1 {
            vstd::arithmetic::div_mod::lemma_fundamental_div_mod(files as int, d as int);
        }
        proof {
            vstd::arithmetic::div_mod::lemma_fundamental_div_mod(files as int, d as int);
            assert((i + 1) * q == i * q + q) by (nonlinear_arith);
            assert(d * q + rem == files);
            assert((i + 1) * q <= d * q) by (nonlinear_arith) requires i + 1 <= d;
        }
        let count = q + extra;
        out.push((named(root, c, i), count));
        sum = sum + count;
        i = i + 1;
    }
    proof {
        vstd::arithmetic::div_mod::lemma_fundamental_div_mod(files as int, d as int);
        assert(i == d);
        assert(rem < d);
        assert(sum == d * q + rem);
        assert(files == d * q + rem);
    }
    (out, sum)
}

/// The `Deep` shape: one chain `root/lvl/…/lvl`, the remainder in the
/// deepest level.
fn plan_deep(root: &str, files: u64) -> (r: (Vec<(String, u64)>, u64))
    ensures
        r.0@.len() == plan_len(BenchMode::Deep, files as nat),
        forall|i: int| 0 <= i < r.0@.len() ==> (#[trigger] r.0@[i]).0@ == plan_path(root@, BenchMode::Deep, i as nat),
        forall|i: int| 0 <= i < r.0@.len() ==> (#[trigger] r.0@[i]).1 == shape_count(BenchMode::Deep, files as nat, i as nat),
        r.1 == shape_sum(BenchMode::Deep, files as nat, r.0@.len() as nat),
        r.1 == files,
{
    let d: u64 = if files < 4 { 4 } else if files > 64 { 64 } else { files };
    let f = files / d;
    proof {
        vstd::arithmetic::div_mod::lemma_fundamental_div_mod(files as int, d as int);
        assert(f * d <= files) by (nonlinear_arith) requires files == d * f + files % d, files % d >= 0;
    }
    let rem = files - f * d;
    let mut out: Vec<(String, u64)> = Vec::new();
    let mut p = root.to_string();
    let mut sum: u64 = 0;
    let mut i: u64 = 0;
    while i < d
        invariant
            i <= d,
            4 <= d <= 64,
            d == clamp_nat(files as nat, 4, 64),
            f == files / d,
            f * d <= files,
            rem == files - f * d,
            out@.len() == i,
            p@ == deep_path(root@, i as nat),
            forall|k: int| 0 <= k < i ==> (#[trigger] out@[k]).0@ == plan_path(root@, BenchMode::Deep, k as nat),
            forall|k: int| 0 <= k < i ==> (#[trigger] out@[k]).1 == shape_count(BenchMode::Deep, files as nat, k as nat),
            sum == shape_sum(BenchMode::Deep, files as nat, i as nat),
            sum == i * f + (if i == d { rem } else { 0 }),
        decreases d - i,
    {
        p = join(p.as_str(), "lvl");
        assert(f <= f * d) by (nonlinear_arith) requires d >= 1;
        let count = if i + 1 == d { f + rem } else { f };
        proof {
            assert((i + 1) * f == i * f + f) by (nonlinear_arith);
            assert((i + 1) * f <= d * f) by (nonlinear_arith) requires i + 1 <= d;
        }
        out.push((p.clone(), count));
        sum = sum + count;
        i = i + 1;
    }
    proof {
        assert(i == d);
        assert(d * f == f * d) by (nonlinear_arith);
    }
    (out, sum)
}

/// The `Mixed` shape: `p0000/{src,docs,assets}` per project, each project's
/// share spread over its three subdirectories.
fn plan_mixed(root: &str, files: u64) -> (r: (Vec<(String, u64)>, u64))
    ensures
        r.0@.len() == plan_len(BenchMode::Mixed, files as nat),
        forall|i: int| 0 <= i < r.0@.len() ==> (#[trigger] r.0@[i]).0@ == plan_path(root@, BenchMode::Mixed, i as nat),
        forall|i: int| 0 <= i < r.0@.len() ==> (#[trigger] r.0@[i]).1 == shape_count(BenchMode::Mixed, files as nat, i as nat),
        r.1 == shape_sum(BenchMode::Mixed, files as nat, r.0@.len() as nat),
        r.1 <= files,
{
    let projects: u64 = if files < 1 { 1 } else if files > 200 { 200 } else { files };
    let fpp = files / projects;
    let base = fpp / 3;
    let extra_n = fpp % 3;
    proof {
        vstd::arithmetic::div_mod::lemma_fundamental_div_mod(files as int, projects as int);
        vstd::arithmetic::div_mod::lemma_fundamental_div_mod(fpp as int, 3);
        assert(fpp * projects <= files) by (nonlinear_arith) requires files == projects * fpp + files % projects, files % projects >= 0;
    }
    let mut out: Vec<(String, u64)> = Vec::new();
    let mut sum: u64 = 0;
    let mut i: u64 = 0;
    while i < projects
        invariant
            i <= projects,
            1 <= projects <= 200,
            projects == clamp_nat(files as nat, 1, 200),
            fpp == files / projects,
            fpp * projects <= files,
            base == fpp / 3,
            extra_n == fpp % 3,
            fpp == 3 * base + extra_n,
            out@.len() == 3 * i,
            forall|k: int| 0 <= k < 3 * i ==> (#[trigger] out@[k]).0@ == plan_path(root@, BenchMode::Mixed, k as nat),
            forall|k: int| 0 <= k < 3 * i ==> (#[trigger] out@[k]).1 == shape_count(BenchMode::Mixed, files as nat, k as nat),
            sum == shape_sum(BenchMode::Mixed, files as nat, (3 * i) as nat),
            sum == i * fpp,
        decreases projects - i,
    {
        let mut pname = String::new();
        push_char(&mut pname, 'p');
        push_pad4(&mut pname, i);
        let pdir = join(root, pname.as_str());
        assert(pname@ =~= seq!['p'] + zero_pad4(i as nat));
        proof {
            assert((i + 1) * fpp == i * fpp + fpp) by (nonlinear_arith);
            assert((i + 1) * fpp <= projects * fpp) by (nonlinear_arith) requires i + 1 <= projects;
            assert(projects * fpp == fpp * projects) by (nonlinear_arith);
        }
        let mut j: u64 = 0;
        while j < 3
            invariant
                j <= 3,
                i < projects,
                1 <= projects <= 200,
                projects == clamp_nat(files as nat, 1, 200),
                fpp == files / projects,
                (i + 1) * fpp <= files,
                base == fpp / 3,
                extra_n == fpp % 3,
                fpp == 3 * base + extra_n,
                pdir@ == path_join(root@, seq!['p'] + zero_pad4(i as nat)),
                out@.len() == 3 * i + j,
                forall|k: int| 0 <= k < 3 * i + j ==> (#[trigger] out@[k]).0@ == plan_path(root@, BenchMode::Mixed, k as nat),
                forall|k: int| 0 <= k < 3 * i + j ==> (#[trigger] out@[k]).1 == shape_count(BenchMode::Mixed, files as nat, k as nat),
                sum == shape_sum(BenchMode::Mixed, files as nat, (3 * i + j) as nat),
                sum == i * fpp + j * base + (if j < extra_n { j } else { extra_n }),
            decreases 3 - j,
        {
            let sub = if j == 0 { "src" } else if j == 1 { "docs" } else { "assets" };
            let count = base + if j < extra_n { 1 } else { 0 };
            let idx: u64 = 3 * i + j;
            assert(idx / 3 == i && idx % 3 == j);
            assert(sub@ == mixed_sub(j as nat));
            proof {
                assert((j + 1) * base == j * base + base) by (nonlinear_arith);
                assert((j + 1) * base <= 3 * base) by (nonlinear_arith) requires j + 1 <= 3;
                assert(i * fpp + fpp <= files) by (nonlinear_arith) requires (i + 1) * fpp <= files;
            }
            out.push((join(pdir.as_str(), sub), count));
            sum = sum + count;
            j = j + 1;
        }
        i = i + 1;
    }
    (out, sum)
}

/// The shape of a benchmark tree: its directories and the files the shape
/// itself puts in each (never more than `cfg.files` in all).
fn plan_shape(root: &str, cfg: &GenConfig) -> (r: (Vec<(String, u64)>, u64))
    ensures
        r.0@.len() == plan_len(cfg.mode, cfg.files as nat),
        forall|i: int| 0 <= i < r.0@.len() ==> (#[trigger] r.0@[i]).0@ == plan_path(root@, cfg.mode, i as nat),
        forall|i: int| 0 <= i < r.0@.len() ==> (#[trigger] r.0@[i]).1 == shape_count(cfg.mode, cfg.files as nat, i as nat),
        r.1 == shape_sum(cfg.mode, cfg.files as nat, r.0@.len() as nat),
        r.1 <= cfg.files,
{
    let files = cfg.files;
    match cfg.mode {
        BenchMode::Wide => {
            let d: u64 = if files < 1 { 1 } else if files > 200 { 200 } else { files };
            plan_even(root, 'd', files, d, Ghost(BenchMode::Wide))
        },
        BenchMode::Tiny => {
            let d: u64 = if files < 1 { 1 } else if files > 500 { 500 } else { files };
            plan_even(root, 't', files, d, Ghost(BenchMode::Tiny))
        },
        BenchMode::Deep => plan_deep(root, files),
        BenchMode::Mixed => plan_mixed(root, files),
        BenchMode::Large => {
            let mut v: Vec<(String, u64)> = Vec::new();
            let count: u64 = if files < 50 { files } else { 50 };
            v.push((join(root, "large"), count));
            assert(shape_sum(BenchMode::Large, files as nat, 0) == 0);
            (v, count)
        },
    }
}

/// The directories of a benchmark tree under `root` and how many files go
/// in each; the counts add up to exactly `cfg.files`.
pub fn plan_tree(root: &str, cfg: &GenConfig) -> (plan: Vec<(String, u64)>)
    ensures
        plan_spec(plan@, root@, cfg.mode, cfg.files as nat),
        plan_sum(plan@, plan@.len() as int) == cfg.files,
{
    let files = cfg.files;
    let (mut plan, planned) = plan_shape(root, cfg);
    let ghost raw = plan@;
    proof {
        lemma_plan_sum_shape(raw, cfg.mode, files as nat, raw.len() as nat);
        lemma_plan_sum_ge_first(raw, raw.len() as int);
    }
    let diff = files - planned;
    let (p0, c0) = plan.remove(0);
    plan.insert(0, (p0, c0 + diff));
    assert(plan@ =~= raw.update(0, (p0, (c0 + diff) as u64)));
    proof {
        lemma_plan_sum_update0(raw, plan@, raw.len() as int);
    }
    plan
}

proof fn lemma_plan_sum_shape(p: Seq<(String, u64)>, mode: BenchMode, files: nat, n: nat)
    requires
        n <= p.len(),
        forall|i: int| 0 <= i < p.len() ==> (#[trigger] p[i]).1 == shape_count(mode, files, i as nat),
    ensures
        plan_sum(p, n as int) == shape_sum(mode, files, n),
    decreases n,
{
    if n > 0 {
        lemma_plan_sum_shape(p, mode, files, (n - 1) as nat);
    }
}

proof fn lemma_plan_sum_update0(a: Seq<(String, u64)>, b: Seq<(String, u64)>, n: int)
    requires
        1 <= n <= a.len(),
        a.len() == b.len(),
        forall|i: int| 1 <= i < a.len() ==> (#[trigger] b[i]).1 == a[i].1,
    ensures
        plan_sum(b, n) == plan_sum(a, n) - a[0].1 + b[0].1,
    decreases n,
{
    if n > 1 {
        lemma_plan_sum_update0(a, b, n - 1);
    } else {
        assert(plan_sum(a, 0) == 0);
        assert(plan_sum(b, 0) == 0);
    }
}

proof fn lemma_plan_sum_ge_first(a: Seq<(String, u64)>, n: int)
    requires
        1 <= n <= a.len(),
    ensures
        plan_sum(a, n) >= a[0].1,
    decreases n,
{
    if n > 1 {
        lemma_plan_sum_ge_first(a, n - 1);
    } else {
        assert(plan_sum(a, 0) == 0);
    }
}

/// The sizes of the next `n` files drawn from generator state `state`.
pub open spec fn size_stream(mode: BenchMode, state: u64, n: nat) -> Seq<u64>
    decreases n,
{
    if n == 0 { Seq::empty() } else { seq![file_size_of(mode, state)] + size_stream(mode, xorshift(state), (n - 1) as nat) }
}

/// The generator state a configuration starts from.
pub open spec fn start_state(c: GenConfig) -> u64 {
    c.seed ^ c.files.wrapping_mul(0x9E37_79B9_7F4A_7C15)
}

/// Same seed, count and shape ⇒ identical tree: the same directories, the
/// same number of files in each, and the same file sizes in the same order.
pub proof fn law_same_seed_same_tree(c1: GenConfig, c2: GenConfig, root: Seq<char>)
    requires
        c1.files == c2.files,
        c1.mode == c2.mode,
        c1.seed == c2.seed,
    ensures
        plan_len(c1.mode, c1.files as nat) == plan_len(c2.mode, c2.files as nat),
        forall|i: nat| plan_path(root, c1.mode, i) == plan_path(root, c2.mode, i),
        forall|i: nat| shape_count(c1.mode, c1.files as nat, i) == shape_count(c2.mode, c2.files as nat, i),
        start_state(c1) == start_state(c2),
        size_stream(c1.mode, start_state(c1), c1.files as nat) == size_stream(c2.mode, start_state(c2), c2.files as nat),
{
}

/// The name of the `n`-th generated file: `f`, `n` zero-padded to six
/// digits, `.dat`.
pub open spec fn file_name_text(n: nat) -> Seq<char> {
    let d = dec(n);
    "f"@ + (if d.len() >= 6 { d } else { repeat_char('0', (6 - d.len()) as nat) + d }) + ".dat"@
}

/// The name of the `n`-th generated file (`f000042.dat`).
pub fn file_name(n: u64) -> (r: String)
    ensures
        r@ == file_name_text(n as nat),
{
    let mut digits = String::new();
    push_dec(&mut digits, n as u128);
    let len = digits.as_str().unicode_len();
    let mut out = String::new();
    out.append("f");
    if len < 6 {
        push_repeat(&mut out, '0', 6 - len);
    }
    out.append(digits.as_str());
    out.append(".dat");
    proof { reveal_strlit("f"); reveal_strlit(".dat"); }
    assert(out@ =~= file_name_text(n as nat));
    out
}

} // verus!
