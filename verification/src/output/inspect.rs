//! Rendering for `inspect` (presentation only; the service is in
//! `crate::inspect`).
use vstd::prelude::*;
use crate::inspect::InspectReport;
use crate::output::diff::{push_rows, rows_text, shown_count, shown_of};
use crate::output::human::{datetime_ms, datetime_label};
use crate::output::size::{format_signed, signed_size_text, size_text};
use crate::text::{dec, pad_left, push_dec, push_padded, push_repeat, repeat_char, signed_dec, push_signed_dec};

verus! {

/// The full text of an inspect report, given the rendered local times.
pub open spec fn inspect_text(r: InspectReport, limit: Option<usize>, before_label: Seq<char>, after_label: Seq<char>) -> Seq<char> {
    let shown = shown_count(r.contributors@.len(), limit);
    r.target@ + "\n"@ + "root: "@ + r.root@ + "\n\n"@
        + before_label + "  "@ + size_text(r.target_before as nat) + "  (snapshot "@ + signed_dec(r.before.id as int) + ")\n"@
        + after_label + "  "@ + size_text(r.target_after as nat) + "  (snapshot "@ + signed_dec(r.after.id as int) + ")\n\n"@
        + (if r.target_delta > 0 { "Total growth\n"@ } else if r.target_delta < 0 { "Total shrink\n"@ } else { "Total change\n"@ })
        + signed_size_text(r.target_delta as int) + "\n\n"@
        + "Contributors\n"@ + repeat_char('\u{2500}', 24) + "\n"@
        + rows_text(r.contributors@, r.target@, "/"@, shown as int)
        + (if shown < r.contributors@.len() { "... "@ + dec((r.contributors@.len() - shown) as nat) + " more contributors\n"@ } else { Seq::empty() })
        + pad_left(signed_size_text(r.other as int), 14) + "  other\n"@
}

/// The inspect text with the timestamps already rendered.
pub fn render_labeled(report: &InspectReport, limit: Option<usize>, before_label: &String, after_label: &String) -> (s: String)
    ensures
        s@ == inspect_text(*report, limit, before_label@, after_label@),
{
    let mut out = String::new();
    out.append(report.target.as_str());
    out.append("\n");
    out.append("root: ");
    out.append(report.root.as_str());
    out.append("\n\n");
    out.append(before_label.as_str());
    out.append("  ");
    let tb = crate::output::size::format(report.target_before);
    out.append(tb.as_str());
    out.append("  (snapshot ");
    push_signed_dec(&mut out, report.before.id as i128);
    out.append(")\n");
    out.append(after_label.as_str());
    out.append("  ");
    let ta = crate::output::size::format(report.target_after);
    out.append(ta.as_str());
    out.append("  (snapshot ");
    push_signed_dec(&mut out, report.after.id as i128);
    out.append(")\n\n");
    if report.target_delta > 0 {
        out.append("Total growth\n");
    } else if report.target_delta < 0 {
        out.append("Total shrink\n");
    } else {
        out.append("Total change\n");
    }
    let td = format_signed(report.target_delta);
    out.append(td.as_str());
    out.append("\n\n");
    out.append("Contributors\n");
    push_repeat(&mut out, '\u{2500}', 24);
    out.append("\n");
    let shown = shown_of(report.contributors.len(), limit);
    push_rows(&mut out, &report.contributors, report.target.as_str(), "/", shown);
    if shown < report.contributors.len() {
        out.append("... ");
        push_dec(&mut out, (report.contributors.len() - shown) as u128);
        out.append(" more contributors\n");
    }
    let o = format_signed(report.other);
    push_padded(&mut out, &o, 14);
    out.append("  other\n");
    assert(out@ =~= inspect_text(*report, limit, before_label@, after_label@));
    out
}

/// Render an inspect report: header, before/after sizes, total change, and
/// the contributor list (`limit = None` means all), then `other`.
/// The two timestamps are shown at the local offsets given for them.
pub fn render(report: &InspectReport, limit: Option<usize>, before_offset: Option<i32>, after_offset: Option<i32>) -> (s: String)
    ensures
        s@ == inspect_text(*report, limit,
            datetime_label(report.before.created_at_ms, before_offset),
            datetime_label(report.after.created_at_ms, after_offset)),
{
    let b = datetime_ms(report.before.created_at_ms, before_offset);
    let a = datetime_ms(report.after.created_at_ms, after_offset);
    let s = render_labeled(report, limit, &b, &a);
    assert(s@ == inspect_text(*report, limit, b@, a@));
    s
}

/// `t` holds `part` somewhere.
pub open spec fn holds_text(t: Seq<char>, part: Seq<char>) -> bool {
    exists|i: int| 0 <= i && i + part.len() <= t.len() && #[trigger] t.subrange(i, i + part.len()) == part
}

/// Law: the total heading follows the sign of the target's change: a
/// growing directory is headed `Total growth`, a shrinking one `Total
/// shrink`, an unchanged one `Total change`.
#[verifier::spinoff_prover]
#[verifier::rlimit(60)]
pub proof fn law_heading_follows_the_sign(r: InspectReport, limit: Option<usize>, b: Seq<char>, a: Seq<char>)
    ensures
        r.target_delta > 0 ==> holds_text(inspect_text(r, limit, b, a), "Total growth\n"@),
        r.target_delta < 0 ==> holds_text(inspect_text(r, limit, b, a), "Total shrink\n"@),
        r.target_delta == 0 ==> holds_text(inspect_text(r, limit, b, a), "Total change\n"@),
{
    let t = inspect_text(r, limit, b, a);
    let shown = shown_count(r.contributors@.len(), limit);
    let pre = r.target@ + "\n"@ + "root: "@ + r.root@ + "\n\n"@
        + b + "  "@ + size_text(r.target_before as nat) + "  (snapshot "@ + signed_dec(r.before.id as int) + ")\n"@
        + a + "  "@ + size_text(r.target_after as nat) + "  (snapshot "@ + signed_dec(r.after.id as int) + ")\n\n"@;
    let heading = if r.target_delta > 0 { "Total growth\n"@ } else if r.target_delta < 0 { "Total shrink\n"@ } else { "Total change\n"@ };
    let post = signed_size_text(r.target_delta as int) + "\n\n"@
        + "Contributors\n"@ + repeat_char('\u{2500}', 24) + "\n"@
        + rows_text(r.contributors@, r.target@, "/"@, shown as int)
        + (if shown < r.contributors@.len() { "... "@ + dec((r.contributors@.len() - shown) as nat) + " more contributors\n"@ } else { Seq::empty() })
        + pad_left(signed_size_text(r.other as int), 14) + "  other\n"@;
    assert(t =~= pre + heading + post);
    assert((pre + heading + post).subrange(pre.len() as int, (pre.len() + heading.len()) as int) =~= heading);
}

} // verus!
