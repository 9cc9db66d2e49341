//! Human rendering for `status`, and the row limit shared by the rankings.
use vstd::prelude::*;
use crate::output::human::{datetime_ms, datetime_label, duration_parts_text, duration_text, number, number_text};
use crate::output::size::size_text;
use crate::snapshot::service::StatusReport;
use crate::storage::models::to_u64_clamp;

verus! {

/// `--all` → no limit; otherwise `--limit N` or the default 10.
pub fn resolve_limit(limit: Option<usize>, all: bool) -> (r: Option<usize>)
    ensures
        r == (if all { None } else { Some(match limit { Some(n) => n, None => 10usize }) }),
{
    if all {
        None
    } else {
        Some(match limit {
            Some(n) => n,
            None => 10,
        })
    }
}

/// The summary lines of an initialized status.
pub open spec fn status_head(r: StatusReport) -> Seq<char> {
    "Data directory: "@ + r.data_dir@ + "\n"@
        + "Database:       "@ + r.db_path@ + " ("@ + size_text(r.db_size as nat) + ")\n"@
        + "Snapshots:      "@ + number_text((r.snapshot_count as u64) as nat) + "\n"@
}

/// The line about the earliest snapshot, if any.
pub open spec fn earliest_text(r: StatusReport, label: Seq<char>) -> Seq<char> {
    match r.earliest {
        Some(e) => "Earliest:       "@ + label + "  (root: "@ + e.root_path@ + ")\n"@,
        None => Seq::empty(),
    }
}

/// The block about the latest snapshot, or the hint that there is none.
pub open spec fn latest_text(r: StatusReport, label: Seq<char>) -> Seq<char> {
    match r.latest {
        Some(l) => {
            let ms = to_u64_clamp(l.scan_duration_ms as int) as nat;
            "Latest:         "@ + label + "  (root: "@ + l.root_path@ + ")\n"@
                + "  total size:   "@ + size_text(to_u64_clamp(l.total_size as int) as nat) + "\n"@
                + "  file count:   "@ + number_text(to_u64_clamp(l.file_count as int) as nat) + "\n"@
                + "  directory count: "@ + number_text(to_u64_clamp(l.dir_count as int) as nat) + "\n"@
                + "  scan duration:"@ + duration_text(ms / 1000, (ms % 1000) * 1_000_000) + "\n"@
                + "  skipped:      "@ + number_text(to_u64_clamp(l.skipped_count as int) as nat)
                + "  (size kind: "@ + l.size_kind@ + ")\n"@
        },
        None => "No snapshots yet \u{2014} run `diskdrift snapshot <path>`.\n"@,
    }
}

/// The status text, given the rendered local times of the earliest and
/// latest snapshots.
pub open spec fn status_text(r: StatusReport, earliest_label: Seq<char>, latest_label: Seq<char>) -> Seq<char> {
    if !r.initialized {
        "DiskDrift is not initialized here.\n"@
            + "  expected database: "@ + r.db_path@ + "\n"@
            + "Run `diskdrift init` to get started.\n"@
    } else {
        status_head(r) + earliest_text(r, earliest_label) + latest_text(r, latest_label)
    }
}

fn push_head(out: &mut String, r: &StatusReport)
    ensures
        final(out)@ == old(out)@ + status_head(*r),
{
    let ghost start = out@;
    out.append("Data directory: ");
    out.append(r.data_dir.as_str());
    out.append("\n");
    out.append("Database:       ");
    out.append(r.db_path.as_str());
    out.append(" (");
    let sz = crate::output::size::format(r.db_size);
    out.append(sz.as_str());
    out.append(")\n");
    out.append("Snapshots:      ");
    let n = number(r.snapshot_count as u64);
    out.append(n.as_str());
    out.append("\n");
    assert(out@ =~= start + status_head(*r));
}

fn push_earliest(out: &mut String, r: &StatusReport, label: &String)
    ensures
        final(out)@ == old(out)@ + earliest_text(*r, label@),
{
    let ghost start = out@;
    match &r.earliest {
        Some(e) => {
            out.append("Earliest:       ");
            out.append(label.as_str());
            out.append("  (root: ");
            out.append(e.root_path.as_str());
            out.append(")\n");
        },
        None => {},
    }
    assert(out@ =~= start + earliest_text(*r, label@));
}

#[verifier::rlimit(40)]
fn push_latest(out: &mut String, r: &StatusReport, label: &String)
    ensures
        final(out)@ == old(out)@ + latest_text(*r, label@),
{
    let ghost start = out@;
    match &r.latest {
        Some(l) => {
            out.append("Latest:         ");
            out.append(label.as_str());
            out.append("  (root: ");
            out.append(l.root_path.as_str());
            out.append(")\n");
            out.append("  total size:   ");
            let t = crate::output::size::format(l.total_size_u64());
            out.append(t.as_str());
            out.append("\n");
            out.append("  file count:   ");
            let f = number(l.file_count_u64());
            out.append(f.as_str());
            out.append("\n");
            out.append("  directory count: ");
            let d = number(l.dir_count_u64());
            out.append(d.as_str());
            out.append("\n");
            out.append("  scan duration:");
            let ms = l.scan_duration_ms_u64();
            let nanos: u32 = ((ms % 1000) * 1_000_000) as u32;
            let du = duration_parts_text(ms / 1000, nanos);
            assert(du@ == duration_text((ms as nat) / 1000, ((ms as nat) % 1000) * 1_000_000));
            out.append(du.as_str());
            out.append("\n");
            out.append("  skipped:      ");
            let k = number(l.skipped_count_u64());
            out.append(k.as_str());
            out.append("  (size kind: ");
            out.append(l.size_kind.as_str());
            out.append(")\n");
        },
        None => {
            out.append("No snapshots yet \u{2014} run `diskdrift snapshot <path>`.\n");
        },
    }
    assert(out@ =~= start + latest_text(*r, label@));
}

/// The status text with the timestamps already rendered.
pub fn render_status_labeled(r: &StatusReport, earliest_label: &String, latest_label: &String) -> (s: String)
    ensures
        s@ == status_text(*r, earliest_label@, latest_label@),
{
    let mut out = String::new();
    if !r.initialized {
        out.append("DiskDrift is not initialized here.\n");
        out.append("  expected database: ");
        out.append(r.db_path.as_str());
        out.append("\n");
        out.append("Run `diskdrift init` to get started.\n");
        assert(out@ =~= status_text(*r, earliest_label@, latest_label@));
        return out;
    }
    push_head(&mut out, r);
    push_earliest(&mut out, r, earliest_label);
    push_latest(&mut out, r, latest_label);
    assert(out@ =~= status_text(*r, earliest_label@, latest_label@));
    out
}

/// The status text; the earliest and latest timestamps are shown at the
/// local offsets given for them.
pub fn render_status(r: &StatusReport, earliest_offset: Option<i32>, latest_offset: Option<i32>) -> (s: String)
    ensures
        s@ == status_text(*r,
            match r.earliest { Some(x) => datetime_label(x.created_at_ms, earliest_offset), None => ""@ },
            match r.latest { Some(x) => datetime_label(x.created_at_ms, latest_offset), None => ""@ }),
{
    let e = match &r.earliest {
        Some(x) => datetime_ms(x.created_at_ms, earliest_offset),
        None => String::new(),
    };
    let l = match &r.latest {
        Some(x) => datetime_ms(x.created_at_ms, latest_offset),
        None => String::new(),
    };
    let s = render_status_labeled(r, &e, &l);
    assert(s@ == status_text(*r, e@, l@));
    s
}

} // verus!
