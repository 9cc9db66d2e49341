//! Rendering for `diff` (presentation only; the engine is in `crate::diff`).
use vstd::prelude::*;
use crate::diff::{DiffEntry, SinceInfo, SnapshotDiff};
use crate::output::human::{date_short, datetime_ms, datetime_label, short_date_label};
use crate::output::size::{format_signed, signed_size_text, size_text};
use crate::pathutil::{relative_display, relative_text};
use crate::since::ago_text;
use crate::text::{dec, pad_left, push_dec, push_padded, push_repeat, repeat_char};

verus! {

/// How many of `n` rows a limit lets through (`None`: all).
pub open spec fn shown_count(n: nat, limit: Option<usize>) -> nat {
    match limit {
        Some(l) => if (l as nat) < n { l as nat } else { n },
        None => n,
    }
}

/// `path` relative to `root`, or the whole path when it is not below it.
pub open spec fn rel_text(path: Seq<char>, root: Seq<char>) -> Seq<char> {
    match relative_text(path, root) {
        Some(r) => r,
        None => path,
    }
}

/// One ranked row: the signed delta right-aligned in 14 columns, then the
/// path relative to `root`, then `suffix`.
pub open spec fn row_text(e: DiffEntry, root: Seq<char>, suffix: Seq<char>) -> Seq<char> {
    pad_left(signed_size_text(e.delta as int), 14) + "  "@ + rel_text(e.path@, root) + suffix + "\n"@
}

/// The first `n` rows.
pub open spec fn rows_text(es: Seq<DiffEntry>, root: Seq<char>, suffix: Seq<char>, n: int) -> Seq<char>
    decreases n,
{
    if n <= 0 { Seq::empty() } else { rows_text(es, root, suffix, n - 1) + row_text(es[n - 1], root, suffix) }
}

/// The `--since` honesty notice: shown only when the requested window was
/// not covered and the earliest snapshot was used instead.
pub open spec fn since_notice(since: Option<SinceInfo>, start_label: Seq<char>) -> Seq<char> {
    match since {
        Some(s) => if s.used_earliest {
            "Requested: "@ + ago_text(s.requested_seconds as int) + "\n"@
                + "Available history starts: "@ + start_label + "\n"@
                + "Using earliest available snapshot.\n\n"@
        } else {
            Seq::empty()
        },
        None => Seq::empty(),
    }
}

/// One titled group of a diff (nothing when no row is shown).
pub open spec fn group_text(title: Seq<char>, es: Seq<DiffEntry>, root: Seq<char>, limit: Option<usize>, verb: Seq<char>) -> Seq<char> {
    let shown = shown_count(es.len(), limit);
    if shown == 0 {
        Seq::empty()
    } else {
        title + "\n"@ + repeat_char('\u{2500}', 24) + "\n"@
            + rows_text(es, root, Seq::empty(), shown as int)
            + (if shown < es.len() {
                "... "@ + dec((es.len() - shown) as nat) + " more "@ + verb + " directories\n"@
            } else {
                Seq::empty()
            })
            + "\n"@
    }
}

/// The full text of a diff, given the rendered local times of the two
/// snapshots and of the `--since` fallback snapshot.
pub open spec fn diff_text(d: SnapshotDiff, limit: Option<usize>, before_label: Seq<char>, after_label: Seq<char>, start_label: Seq<char>) -> Seq<char> {
    "Disk Growth\n"@ + before_label + " \u{2192} "@ + after_label + "\n"@
        + "root: "@ + d.root@ + "\n\n"@
        + since_notice(d.since, start_label)
        + "Total\n"@
        + "  before:  "@ + size_text(d.total_before as nat) + "\n"@
        + "  after:   "@ + size_text(d.total_after as nat) + "\n"@
        + "  delta:   "@ + signed_size_text(d.total_delta as int) + "\n\n"@
        + group_text("Grew"@, d.grew@, d.root@, limit, "growing"@)
        + group_text("Shrank"@, d.shrank@, d.root@, limit, "shrinking"@)
}

/// Appends the `--since` notice.
pub fn push_since_notice(out: &mut String, since: &Option<SinceInfo>, start_label: &String)
    ensures
        final(out)@ == old(out)@ + since_notice(*since, start_label@),
{
    let ghost start = out@;
    match since {
        Some(s) => {
            if s.used_earliest {
                out.append("Requested: ");
                let h = s.requested_human();
                out.append(h.as_str());
                out.append("\n");
                out.append("Available history starts: ");
                out.append(start_label.as_str());
                out.append("\n");
                out.append("Using earliest available snapshot.\n\n");
                assert(out@ =~= start + since_notice(*since, start_label@));
            } else {
                assert(out@ =~= start + since_notice(*since, start_label@));
            }
        },
        None => {
            assert(out@ =~= start + since_notice(*since, start_label@));
        },
    }
}

/// Appends the first `shown` ranked rows.
pub fn push_rows(out: &mut String, es: &Vec<DiffEntry>, root: &str, suffix: &str, shown: usize)
    requires
        shown <= es.len(),
    ensures
        final(out)@ == old(out)@ + rows_text(es@, root@, suffix@, shown as int),
{
    let ghost start = out@;
    let mut i: usize = 0;
    while i < shown
        invariant
            i <= shown <= es.len(),
            out@ == start + rows_text(es@, root@, suffix@, i as int),
        decreases shown - i,
    {
        let e = &es[i];
        let ghost before = out@;
        let delta = format_signed(e.delta);
        push_padded(out, &delta, 14);
        out.append("  ");
        match relative_display(e.path.as_str(), root) {
            Some(r) => { out.append(r.as_str()); },
            None => { out.append(e.path.as_str()); },
        }
        out.append(suffix);
        out.append("\n");
        assert(out@ =~= before + row_text(es@[i as int], root@, suffix@));
        assert(out@ =~= start + rows_text(es@, root@, suffix@, (i + 1) as int));
        i = i + 1;
    }
}

/// How many rows a limit lets through.
pub fn shown_of(n: usize, limit: Option<usize>) -> (s: usize)
    ensures
        s == shown_count(n as nat, limit),
{
    match limit {
        Some(l) => if l < n { l } else { n },
        None => n,
    }
}

#[verifier::spinoff_prover]
#[verifier::rlimit(40)]
fn render_group(out: &mut String, title: &str, entries: &Vec<DiffEntry>, root: &str, limit: Option<usize>, verb: &str)
    ensures
        final(out)@ == old(out)@ + group_text(title@, entries@, root@, limit, verb@),
{
    let ghost start = out@;
    let shown = shown_of(entries.len(), limit);
    if shown == 0 {
        assert(out@ =~= start + group_text(title@, entries@, root@, limit, verb@));
        return;
    }
    out.append(title);
    out.append("\n");
    push_repeat(out, '\u{2500}', 24);
    out.append("\n");
    push_rows(out, entries, root, "", shown);
    let ghost mid = out@;
    if shown < entries.len() {
        out.append("... ");
        push_dec(out, (entries.len() - shown) as u128);
        out.append(" more ");
        out.append(verb);
        out.append(" directories\n");
    }
    out.append("\n");
    proof {
        reveal_strlit("");
        assert(""@ =~= Seq::<char>::empty());
        assert(mid =~= start + title@ + "\n"@ + repeat_char('\u{2500}', 24) + "\n"@ + rows_text(entries@, root@, Seq::empty(), shown as int));
    }
    assert(out@ =~= start + group_text(title@, entries@, root@, limit, verb@));
}

/// The diff text with the timestamps already rendered.
pub fn render_labeled(diff: &SnapshotDiff, limit: Option<usize>, before_label: &String, after_label: &String, start_label: &String) -> (s: String)
    ensures
        s@ == diff_text(*diff, limit, before_label@, after_label@, start_label@),
{
    let mut out = String::new();
    out.append("Disk Growth\n");
    out.append(before_label.as_str());
    out.append(" \u{2192} ");
    out.append(after_label.as_str());
    out.append("\n");
    out.append("root: ");
    out.append(diff.root.as_str());
    out.append("\n\n");
    push_since_notice(&mut out, &diff.since, start_label);
    out.append("Total\n");
    out.append("  before:  ");
    let b = crate::output::size::format(diff.total_before);
    out.append(b.as_str());
    out.append("\n");
    out.append("  after:   ");
    let a = crate::output::size::format(diff.total_after);
    out.append(a.as_str());
    out.append("\n");
    out.append("  delta:   ");
    let t = format_signed(diff.total_delta);
    out.append(t.as_str());
    out.append("\n\n");
    render_group(&mut out, "Grew", &diff.grew, diff.root.as_str(), limit, "growing");
    render_group(&mut out, "Shrank", &diff.shrank, diff.root.as_str(), limit, "shrinking");
    assert(out@ =~= diff_text(*diff, limit, before_label@, after_label@, start_label@));
    out
}

/// Render a diff. `limit = None` means "all" (`--all`); otherwise it caps
/// each of grew/shrank to `limit` rows. The timestamps are shown at the
/// local offsets given for them (before, after, and the `--since` start).
pub fn render(diff: &SnapshotDiff, limit: Option<usize>, before_offset: Option<i32>, after_offset: Option<i32>,
    start_offset: Option<i32>) -> (s: String)
    ensures
        s@ == diff_text(*diff, limit,
            datetime_label(diff.before.created_at_ms, before_offset),
            datetime_label(diff.after.created_at_ms, after_offset),
            match diff.since { Some(si) => short_date_label(si.effective_before_ms, start_offset), None => ""@ }),
{
    let b = datetime_ms(diff.before.created_at_ms, before_offset);
    let a = datetime_ms(diff.after.created_at_ms, after_offset);
    let st = match diff.since {
        Some(s) => date_short(s.effective_before_ms, start_offset),
        None => String::new(),
    };
    let s = render_labeled(diff, limit, &b, &a, &st);
    assert(s@ == diff_text(*diff, limit, b@, a@, st@));
    s
}

} // verus!
