//! The command line, as plain values.
//!
//! The program parses arguments into these types; the choices that depend
//! on several flags (which snapshot pair to compare, which retention policy
//! to apply, how many rows to show) are made here.
use vstd::prelude::*;
use crate::diff::DiffSelection;
use crate::error::WhyBigError;
use crate::retention::RetentionPolicy;
use crate::since::{duration_value, parse, trim};

verus! {

/// Global options and the chosen command.
#[derive(Debug, Clone)]
pub struct Cli {
    /// Override the data directory.
    pub data_dir: Option<String>,
    pub command: Command,
}

/// The commands.
#[derive(Debug, Clone)]
pub enum Command {
    /// Create the data directory and database (idempotent).
    Init,
    /// Record a size snapshot of a directory tree.
    Snapshot { path: String, json: bool },
    /// Show the database and latest snapshot summary.
    Status { json: bool },
    /// Compare two snapshots at the root's top level.
    Diff { from: Option<i64>, to: Option<i64>, since: Option<String>, limit: Option<usize>, all: bool, json: bool },
    /// Drill into one directory's children.
    Inspect { path: String, limit: Option<usize>, json: bool },
    /// A directory's size over time.
    History { path: Option<String>, limit: Option<usize>, json: bool },
    /// Rank the biggest growers (or shrinkers).
    Top { path: Option<String>, shrink: bool, since: Option<String>, limit: Option<usize>, json: bool },
    /// Preview or apply snapshot retention.
    Prune { apply: bool, json: bool, recent_days: Option<u32>, daily_days: Option<u32>, weekly_days: Option<u32> },
    /// Explicitly shrink the database file.
    Compact,
}

/// The pair selection that `--from/--to` or `--since` ask for.
pub fn diff_selection(from: Option<i64>, to: Option<i64>, since: Option<&str>) -> (r: Result<DiffSelection, WhyBigError>)
    ensures
        (from is Some && to is Some) ==> (r matches Ok(DiffSelection::Explicit { from: f, to: t }) && f == from->0 && t == to->0),
        !(from is Some && to is Some) && since is None ==> (r matches Ok(DiffSelection::Default)),
        !(from is Some && to is Some) && since is Some && duration_value(since->0@) is Some ==>
            (r matches Ok(DiffSelection::Since { duration }) && duration_value(since->0@) == Some(duration.0 as int)),
        !(from is Some && to is Some) && since is Some && duration_value(since->0@) is None ==>
            (r matches Err(WhyBigError::BadDuration(m)) && m@ == trim(since->0@)),
{
    match (from, to) {
        (Some(f), Some(t)) => Ok(DiffSelection::Explicit { from: f, to: t }),
        _ => match since {
            None => Ok(DiffSelection::Default),
            Some(s) => match parse(s) {
                Ok(d) => Ok(DiffSelection::Since { duration: d }),
                Err(e) => Err(e),
            },
        },
    }
}

/// The retention policy: each tier from its flag, else the default
/// (7 / 30 / 365 days).
pub fn policy_from_flags(recent_days: Option<u32>, daily_days: Option<u32>, weekly_days: Option<u32>) -> (p: RetentionPolicy)
    ensures
        p.recent_days == (match recent_days { Some(v) => v, None => 7 }),
        p.daily_days == (match daily_days { Some(v) => v, None => 30 }),
        p.weekly_days == (match weekly_days { Some(v) => v, None => 365 }),
{
    RetentionPolicy {
        recent_days: match recent_days { Some(v) => v, None => 7 },
        daily_days: match daily_days { Some(v) => v, None => 30 },
        weekly_days: match weekly_days { Some(v) => v, None => 365 },
    }
}

} // verus!
