//! Domain errors.
//!
//! Every error that can reach the user has a complete, human-readable
//! message, given by [`WhyBigError::message`] and stated exactly by
//! [`error_text`]. Failures of the storage and filesystem layers reach this
//! type already turned into their message text.
use vstd::prelude::*;
use crate::text::{push_signed_dec, push_dec, signed_dec, dec};

verus! {

/// All user-visible failures.
#[derive(Debug, Clone)]
pub enum WhyBigError {
    /// Cannot determine (or construct) the data directory.
    DataDir(String),
    /// The snapshot root cannot be used (missing / vanished / unreadable).
    RootUnavailable { path: String, reason: String },
    /// The snapshot root is not a directory.
    RootNotADirectory(String),
    /// The chosen root is inside the data directory itself.
    RootInsideDataDir(String),
    /// The database reported an error (its message).
    Database(String),
    /// A schema migration failed.
    Migration(String),
    /// The database was written by a newer schema version.
    NewerSchema,
    /// There is no snapshot at all.
    NoSnapshots,
    /// There is no database yet.
    NotInitialized,
    /// A snapshot id that does not exist.
    SnapshotNotFound(i64),
    /// The root has fewer than two snapshots.
    NotEnoughSnapshots { root: String, count: u64 },
    /// `--since` found no snapshot older than the latest one.
    NoEarlierSnapshot { root: String },
    /// Two snapshots of different roots were asked to be compared.
    CrossRootDiff,
    /// The path is a directory in neither snapshot.
    PathNotInSnapshots(String),
    /// The path lies outside the tracked root.
    PathOutsideRoot { path: String, root: String },
    /// JSON serialization failed (its message).
    Json(String),
    /// The database holds something unexpected.
    CorruptData(String),
    /// An I/O failure (its message).
    Io(String),
    /// A `--since` duration that is not a positive whole `m|h|d|w` amount.
    BadDuration(String),
    /// A retention policy that is not `1 <= recent < daily < weekly`.
    BadPolicy(String),
    /// The prune executor refused a plan.
    PruneSafety(String),
}

/// The message shown for an error.
pub open spec fn error_text(e: WhyBigError) -> Seq<char> {
    match e {
        WhyBigError::DataDir(m) => "cannot resolve the DiskDrift data directory: "@ + m@,
        WhyBigError::RootUnavailable { path, reason } =>
            "cannot scan root `"@ + path@ + "`: "@ + reason@,
        WhyBigError::RootNotADirectory(p) => "cannot scan root `"@ + p@ + "`: not a directory"@,
        WhyBigError::RootInsideDataDir(p) =>
            "root `"@ + p@ + "` lies inside the DiskDrift data directory; scanning it would record the database while it grows. Choose a different root"@,
        WhyBigError::Database(m) => "database error: "@ + m@,
        WhyBigError::Migration(m) => "database migration failed: "@ + m@,
        WhyBigError::NewerSchema =>
            "Database was created by a newer version of DiskDrift. Please update DiskDrift."@,
        WhyBigError::NoSnapshots => "no snapshots yet \u{2014} run `diskdrift snapshot <path>` first"@,
        WhyBigError::NotInitialized => "DiskDrift is not initialized here. Run `diskdrift init` first"@,
        WhyBigError::SnapshotNotFound(id) => "snapshot "@ + signed_dec(id as int) + " not found"@,
        WhyBigError::NotEnoughSnapshots { root, count } =>
            "need at least two snapshots of root `"@ + root@ + "` to compare (only "@
                + dec(count as nat) + " available)"@,
        WhyBigError::NoEarlierSnapshot { root } =>
            "no earlier snapshot of root `"@ + root@ + "` to compare against"@,
        WhyBigError::CrossRootDiff => "Cannot compare snapshots from different roots."@,
        WhyBigError::PathNotInSnapshots(p) => "path `"@ + p@ + "` is not a directory in either snapshot"@,
        WhyBigError::PathOutsideRoot { path, root } =>
            "path `"@ + path@ + "` is outside tracked root `"@ + root@ + "`"@,
        WhyBigError::Json(m) => "json serialization failed: "@ + m@,
        WhyBigError::CorruptData(m) => "unexpected database content: "@ + m@,
        WhyBigError::Io(m) => "I/O error: "@ + m@,
        WhyBigError::BadDuration(s) =>
            "invalid duration `"@ + s@ + "`: use a positive whole number of m, h, d or w (e.g. 30m, 24h, 7d, 4w)"@,
        WhyBigError::BadPolicy(m) => "invalid retention policy: "@ + m@,
        WhyBigError::PruneSafety(m) => "prune safety check failed: "@ + m@,
    }
}

impl WhyBigError {
    /// The human-readable message of this error.
    pub fn message(&self) -> (s: String)
        ensures
            s@ == error_text(*self),
    {
        let mut out = String::new();
        match self {
            WhyBigError::DataDir(m) => {
                out.append("cannot resolve the DiskDrift data directory: ");
                out.append(m.as_str());
            },
            WhyBigError::RootUnavailable { path, reason } => {
                out.append("cannot scan root `");
                out.append(path.as_str());
                out.append("`: ");
                out.append(reason.as_str());
            },
            WhyBigError::RootNotADirectory(p) => {
                out.append("cannot scan root `");
                out.append(p.as_str());
                out.append("`: not a directory");
            },
            WhyBigError::RootInsideDataDir(p) => {
                out.append("root `");
                out.append(p.as_str());
                out.append("` lies inside the DiskDrift data directory; scanning it would record the database while it grows. Choose a different root");
            },
            WhyBigError::Database(m) => {
                out.append("database error: ");
                out.append(m.as_str());
            },
            WhyBigError::Migration(m) => {
                out.append("database migration failed: ");
                out.append(m.as_str());
            },
            WhyBigError::NewerSchema => {
                out.append("Database was created by a newer version of DiskDrift. Please update DiskDrift.");
            },
            WhyBigError::NoSnapshots => {
                out.append("no snapshots yet \u{2014} run `diskdrift snapshot <path>` first");
            },
            WhyBigError::NotInitialized => {
                out.append("DiskDrift is not initialized here. Run `diskdrift init` first");
            },
            WhyBigError::SnapshotNotFound(id) => {
                out.append("snapshot ");
                push_signed_dec(&mut out, *id as i128);
                out.append(" not found");
            },
            WhyBigError::NotEnoughSnapshots { root, count } => {
                out.append("need at least two snapshots of root `");
                out.append(root.as_str());
                out.append("` to compare (only ");
                push_dec(&mut out, *count as u128);
                out.append(" available)");
            },
            WhyBigError::NoEarlierSnapshot { root } => {
                out.append("no earlier snapshot of root `");
                out.append(root.as_str());
                out.append("` to compare against");
            },
            WhyBigError::CrossRootDiff => {
                out.append("Cannot compare snapshots from different roots.");
            },
            WhyBigError::PathNotInSnapshots(p) => {
                out.append("path `");
                out.append(p.as_str());
                out.append("` is not a directory in either snapshot");
            },
            WhyBigError::PathOutsideRoot { path, root } => {
                out.append("path `");
                out.append(path.as_str());
                out.append("` is outside tracked root `");
                out.append(root.as_str());
                out.append("`");
            },
            WhyBigError::Json(m) => {
                out.append("json serialization failed: ");
                out.append(m.as_str());
            },
            WhyBigError::CorruptData(m) => {
                out.append("unexpected database content: ");
                out.append(m.as_str());
            },
            WhyBigError::Io(m) => {
                out.append("I/O error: ");
                out.append(m.as_str());
            },
            WhyBigError::BadDuration(s) => {
                out.append("invalid duration `");
                out.append(s.as_str());
                out.append("`: use a positive whole number of m, h, d or w (e.g. 30m, 24h, 7d, 4w)");
            },
            WhyBigError::BadPolicy(m) => {
                out.append("invalid retention policy: ");
                out.append(m.as_str());
            },
            WhyBigError::PruneSafety(m) => {
                out.append("prune safety check failed: ");
                out.append(m.as_str());
            },
        }
        assert(out@ =~= error_text(*self));
        out
    }
}

} // verus!
