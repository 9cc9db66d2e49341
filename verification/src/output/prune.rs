//! Human rendering for `prune`: the preview (nothing deleted) or the
//! applied result.
use vstd::prelude::*;
use crate::output::human::{datetime_ms, datetime_label, number, number_text};
use crate::output::size::size_text;

verus! {

/// The prune text, given the rendered local time of the oldest removed
/// snapshot (when any is removed).
pub open spec fn prune_text(total: u64, keep: u64, remove: u64, oldest_label: Option<Seq<char>>, db_size: u64, applied: bool) -> Seq<char> {
    "Snapshots: "@ + number_text(total as nat) + "\n"@
        + "Keep:      "@ + number_text(keep as nat) + "\n"@
        + "Remove:    "@ + number_text(remove as nat) + "\n"@
        + match oldest_label { Some(l) => "Oldest removed: "@ + l + "\n"@, None => Seq::empty() }
        + "Database:  "@ + size_text(db_size as nat) + "\n"@
        + if applied {
            "Removed "@ + number_text(remove as nat)
                + " snapshots. The database keeps free pages; run `diskdrift compact` to shrink the file.\n"@
        } else {
            "No data has been deleted.\nRun `diskdrift prune --apply` to apply this retention policy.\n"@
        }
}

/// The prune text with the oldest removal time already rendered.
pub fn render_prune_labeled(total: u64, keep: u64, remove: u64, oldest_label: &Option<String>, db_size: u64, applied: bool) -> (s: String)
    ensures
        s@ == prune_text(total, keep, remove, match *oldest_label { Some(l) => Some(l@), None => None }, db_size, applied),
{
    let mut out = String::new();
    out.append("Snapshots: ");
    let t = number(total);
    out.append(t.as_str());
    out.append("\n");
    out.append("Keep:      ");
    let k = number(keep);
    out.append(k.as_str());
    out.append("\n");
    out.append("Remove:    ");
    let r = number(remove);
    out.append(r.as_str());
    out.append("\n");
    match oldest_label {
        Some(l) => {
            out.append("Oldest removed: ");
            out.append(l.as_str());
            out.append("\n");
        },
        None => {},
    }
    out.append("Database:  ");
    let d = crate::output::size::format(db_size);
    out.append(d.as_str());
    out.append("\n");
    if applied {
        out.append("Removed ");
        out.append(r.as_str());
        out.append(" snapshots. The database keeps free pages; run `diskdrift compact` to shrink the file.\n");
    } else {
        out.append("No data has been deleted.\nRun `diskdrift prune --apply` to apply this retention policy.\n");
    }
    assert(out@ =~= prune_text(total, keep, remove, match *oldest_label { Some(l) => Some(l@), None => None }, db_size, applied));
    out
}

/// The prune text; the oldest removal time is shown at the local offset
/// given for it.
pub fn render_prune(total: u64, keep: u64, remove: u64, oldest_removed_ms: Option<i64>, oldest_offset: Option<i32>,
    db_size: u64, applied: bool) -> (s: String)
    ensures
        s@ == prune_text(total, keep, remove,
            match oldest_removed_ms { Some(ms) => Some(datetime_label(ms, oldest_offset)), None => None },
            db_size, applied),
{
    let label = match oldest_removed_ms {
        Some(ms) => Some(datetime_ms(ms, oldest_offset)),
        None => None,
    };
    let s = render_prune_labeled(total, keep, remove, &label, db_size, applied);
    if let Some(l) = &label {
        assert(s@ == prune_text(total, keep, remove, Some(l@), db_size, applied));
    }
    s
}

} // verus!
