//! Human rendering for `history` (a text timeline).
use vstd::prelude::*;
use crate::history::{HistoryPoint, HistoryReport};
use crate::output::human::{date_short, short_date_label};
use crate::output::size::{format_signed, signed_size_text, size_text};
use crate::text::{pad_left, push_padded};

verus! {

/// One timeline line, given the rendered local date of the point.
pub open spec fn point_text(p: HistoryPoint, date: Seq<char>) -> Seq<char> {
    date + "  "@ + pad_left(size_text(p.size as nat), 10) + "  "@
        + pad_left(match p.delta_from_previous { Some(d) => signed_size_text(d as int), None => Seq::empty() }, 10)
        + "\n"@
}

/// The first `n` lines.
pub open spec fn points_text(ps: Seq<HistoryPoint>, dates: Seq<Seq<char>>, n: int) -> Seq<char>
    decreases n,
{
    if n <= 0 { Seq::empty() } else { points_text(ps, dates, n - 1) + point_text(ps[n - 1], dates[n - 1]) }
}

/// The full text of a history report, given each point's rendered date.
pub open spec fn history_text(r: HistoryReport, dates: Seq<Seq<char>>) -> Seq<char> {
    (if r.target@ == r.root@ { "Disk History\n"@ + "Root: "@ + r.root@ + "\n"@ } else { r.target@ + "\n"@ })
        + "\n"@
        + points_text(r.points@, dates, r.points@.len() as int)
        + "\n"@ + "Total change\n"@ + signed_size_text(r.total_delta as int) + "\n"@
}

/// The views of the rendered dates.
pub open spec fn labels_of(v: Seq<String>) -> Seq<Seq<char>> {
    Seq::new(v.len(), |i: int| v[i]@)
}

/// The history text with each point's date already rendered.
pub fn render_labeled(report: &HistoryReport, dates: &Vec<String>) -> (s: String)
    requires
        dates@.len() == report.points@.len(),
    ensures
        s@ == history_text(*report, labels_of(dates@)),
{
    let mut out = String::new();
    if report.target == report.root {
        out.append("Disk History\n");
        out.append("Root: ");
        out.append(report.root.as_str());
        out.append("\n");
    } else {
        out.append(report.target.as_str());
        out.append("\n");
    }
    out.append("\n");
    let ghost head = out@;
    let mut i: usize = 0;
    while i < report.points.len()
        invariant
            i <= report.points.len(),
            dates@.len() == report.points@.len(),
            out@ == head + points_text(report.points@, labels_of(dates@), i as int),
        decreases report.points.len() - i,
    {
        let p = &report.points[i];
        let ghost before = out@;
        out.append(dates[i].as_str());
        out.append("  ");
        let sz = crate::output::size::format(p.size);
        push_padded(&mut out, &sz, 10);
        out.append("  ");
        let d = match p.delta_from_previous {
            Some(d) => format_signed(d),
            None => String::new(),
        };
        push_padded(&mut out, &d, 10);
        out.append("\n");
        proof {
            reveal_strlit("");
            assert(""@ =~= Seq::<char>::empty());
            assert(labels_of(dates@)[i as int] == dates@[i as int]@);
        }
        assert(out@ =~= before + point_text(report.points@[i as int], labels_of(dates@)[i as int]));
        i = i + 1;
    }
    out.append("\n");
    out.append("Total change\n");
    let t = format_signed(report.total_delta);
    out.append(t.as_str());
    out.append("\n");
    assert(out@ =~= history_text(*report, labels_of(dates@)));
    out
}

/// The short local date label of each point, at its offset.
pub open spec fn point_dates(ps: Seq<HistoryPoint>, offsets: Seq<Option<i32>>) -> Seq<Seq<char>> {
    Seq::new(ps.len(), |i: int| short_date_label(ps[i].created_at_ms, offsets[i]))
}

/// Render a history report; point `i`'s date is shown at `offsets[i]`,
/// the local offset for that instant.
pub fn render(report: &HistoryReport, offsets: &Vec<Option<i32>>) -> (s: String)
    requires
        offsets@.len() == report.points@.len(),
    ensures
        s@ == history_text(*report, point_dates(report.points@, offsets@)),
{
    let mut dates: Vec<String> = Vec::new();
    let mut i: usize = 0;
    while i < report.points.len()
        invariant
            i <= report.points.len(),
            offsets@.len() == report.points@.len(),
            dates@.len() == i,
            forall|k: int| 0 <= k < i ==> (#[trigger] dates@[k])@ == short_date_label(report.points@[k].created_at_ms, offsets@[k]),
        decreases report.points.len() - i,
    {
        dates.push(date_short(report.points[i].created_at_ms, offsets[i]));
        i = i + 1;
    }
    let s = render_labeled(report, &dates);
    assert(labels_of(dates@) =~= point_dates(report.points@, offsets@));
    s
}

} // verus!
