//! Human rendering for `top` (quick ranking views).
use vstd::prelude::*;
use crate::output::diff::{push_rows, push_since_notice, rows_text, shown_count, shown_of, since_notice};
use crate::output::human::{date_short, short_date_label};
use crate::text::{dec, push_dec};
use crate::top::{TopMode, TopReport};

verus! {

/// The full text of a top ranking, given the rendered local dates.
pub open spec fn top_text(r: TopReport, limit: Option<usize>, before_label: Seq<char>, after_label: Seq<char>, start_label: Seq<char>) -> Seq<char> {
    let shown = shown_count(r.entries@.len(), limit);
    (if r.mode == TopMode::Growth { "Top Disk Growth\n"@ } else { "Disk Space Freed\n"@ })
        + before_label + " \u{2192} "@ + after_label + "\n\n"@
        + since_notice(r.since, start_label)
        + rows_text(r.entries@, r.scope@, Seq::empty(), shown as int)
        + (if shown < r.entries@.len() { "... "@ + dec((r.entries@.len() - shown) as nat) + " more\n"@ } else { Seq::empty() })
}

/// The ranking text with the dates already rendered.
pub fn render_labeled(report: &TopReport, limit: Option<usize>, before_label: &String, after_label: &String, start_label: &String) -> (s: String)
    ensures
        s@ == top_text(*report, limit, before_label@, after_label@, start_label@),
{
    let mut out = String::new();
    match report.mode {
        TopMode::Growth => { out.append("Top Disk Growth\n"); },
        TopMode::Shrink => { out.append("Disk Space Freed\n"); },
    }
    out.append(before_label.as_str());
    out.append(" \u{2192} ");
    out.append(after_label.as_str());
    out.append("\n\n");
    push_since_notice(&mut out, &report.since, start_label);
    let shown = shown_of(report.entries.len(), limit);
    push_rows(&mut out, &report.entries, report.scope.as_str(), "", shown);
    if shown < report.entries.len() {
        out.append("... ");
        push_dec(&mut out, (report.entries.len() - shown) as u128);
        out.append(" more\n");
    }
    proof {
        reveal_strlit("");
        assert(""@ =~= Seq::<char>::empty());
    }
    assert(out@ =~= top_text(*report, limit, before_label@, after_label@, start_label@));
    out
}

/// Render a top ranking. `limit = None` means all. Dates are shown at the
/// local offsets given for them (before, after, and the `--since` start).
pub fn render(report: &TopReport, limit: Option<usize>, before_offset: Option<i32>, after_offset: Option<i32>,
    start_offset: Option<i32>) -> (s: String)
    ensures
        s@ == top_text(*report, limit,
            short_date_label(report.before.created_at_ms, before_offset),
            short_date_label(report.after.created_at_ms, after_offset),
            match report.since { Some(si) => short_date_label(si.effective_before_ms, start_offset), None => ""@ }),
{
    let b = date_short(report.before.created_at_ms, before_offset);
    let a = date_short(report.after.created_at_ms, after_offset);
    let st = match report.since {
        Some(s) => date_short(s.effective_before_ms, start_offset),
        None => String::new(),
    };
    let s = render_labeled(report, limit, &b, &a, &st);
    assert(s@ == top_text(*report, limit, b@, a@, st@));
    s
}

/// Law: the title names the ranking: a growth ranking starts with
/// `Top Disk Growth`, a shrink ranking with `Disk Space Freed`.
pub proof fn law_title_names_the_mode(r: TopReport, limit: Option<usize>, b: Seq<char>, a: Seq<char>, st: Seq<char>)
    ensures
        r.mode == TopMode::Growth ==> top_text(r, limit, b, a, st).subrange(0, 16) == "Top Disk Growth\n"@,
        r.mode == TopMode::Shrink ==> top_text(r, limit, b, a, st).subrange(0, 17) == "Disk Space Freed\n"@,
{
    reveal_strlit("Top Disk Growth\n");
    reveal_strlit("Disk Space Freed\n");
    let t = top_text(r, limit, b, a, st);
    let title = if r.mode == TopMode::Growth { "Top Disk Growth\n"@ } else { "Disk Space Freed\n"@ };
    assert(t.subrange(0, title.len() as int) =~= title);
}

} // verus!
