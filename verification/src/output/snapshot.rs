//! Human rendering for a completed `snapshot`.
use vstd::prelude::*;
use crate::output::human::{duration, duration_text, number, number_text};
use crate::output::size::size_text;
use crate::snapshot::service::SnapshotOutcome;
use crate::text::{push_signed_dec, signed_dec};

verus! {

/// The summary printed after a snapshot, given the rendered scan time.
pub open spec fn outcome_text(o: SnapshotOutcome, elapsed: Seq<char>) -> Seq<char> {
    number_text(o.file_count as nat) + " files\n"@
        + number_text(o.dir_count as nat) + " directories\n"@
        + size_text(o.total_size as nat) + "\n\n"@
        + "Snapshot #"@ + signed_dec(o.snapshot_id as int) + " saved in "@ + elapsed + "\n"@
}

/// The warning block for entries that could not be read (empty when none).
pub open spec fn warnings_text(o: SnapshotOutcome) -> Seq<char> {
    if o.skipped_count > 0 {
        "\nWarnings:\n"@ + number_text(o.skipped_count as nat) + " entries could not be read\n"@
    } else {
        Seq::empty()
    }
}

/// The summary with the scan time already rendered.
pub fn render_outcome_labeled(o: &SnapshotOutcome, elapsed: &String) -> (s: String)
    ensures
        s@ == outcome_text(*o, elapsed@),
{
    let mut out = String::new();
    let f = number(o.file_count);
    out.append(f.as_str());
    out.append(" files\n");
    let d = number(o.dir_count);
    out.append(d.as_str());
    out.append(" directories\n");
    let t = crate::output::size::format(o.total_size);
    out.append(t.as_str());
    out.append("\n\n");
    out.append("Snapshot #");
    push_signed_dec(&mut out, o.snapshot_id as i128);
    out.append(" saved in ");
    out.append(elapsed.as_str());
    out.append("\n");
    assert(out@ =~= outcome_text(*o, elapsed@));
    out
}

/// The summary printed after a snapshot (stdout).
pub fn render_outcome(o: &SnapshotOutcome) -> (s: String)
    ensures
        s@ == outcome_text(*o, duration_text(o.elapsed@.0 as nat, o.elapsed@.1 as nat)),
{
    let e = duration(o.elapsed);
    render_outcome_labeled(o, &e)
}

/// The warning block (stderr).
pub fn render_warnings(o: &SnapshotOutcome) -> (s: String)
    ensures
        s@ == warnings_text(*o),
{
    let mut out = String::new();
    if o.skipped_count > 0 {
        out.append("\nWarnings:\n");
        let n = number(o.skipped_count);
        out.append(n.as_str());
        out.append(" entries could not be read\n");
    }
    assert(out@ =~= warnings_text(*o));
    out
}

} // verus!
