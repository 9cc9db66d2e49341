//! Where the data lives.
//!
//! Resolution order (first match wins):
//! 1. explicit `--data-dir <dir>` (CLI)
//! 2. `DISKDRIFT_DATA_DIR` environment variable
//! 3. `WHYBIG_DATA_DIR`: the **deprecated legacy** fallback from the
//!    pre-release name WhyBig; the program prints a one-line warning to
//!    stderr when it is used (never to stdout, so `--json` stays pure)
//! 4. platform default:
//!    - Windows: `%APPDATA%\diskdrift`
//!    - macOS:   `~/Library/Application Support/diskdrift`
//!    - Linux:   `$XDG_DATA_HOME/diskdrift`, falling back to `~/.local/share/diskdrift`
//!
//! An empty variable counts as unset (`HOME` excepted). The legacy data
//! directory is never touched: it is neither deleted nor merged.
use vstd::prelude::*;
use crate::error::WhyBigError;
use crate::pathutil::{join, path_join};

verus! {

/// A resolved data directory.
#[derive(Debug, Clone, PartialEq, Eq)]
pub struct DataDirChoice {
    pub dir: String,
    /// The deprecated `WHYBIG_DATA_DIR` supplied it (warn the user).
    pub from_legacy_env: bool,
}

/// The platform whose default data location applies.
#[derive(Debug, Clone, Copy, PartialEq, Eq, Structural)]
pub enum Platform {
    Windows,
    MacOs,
    /// Linux and the other Unix-like systems.
    Unix,
}

/// A set, non-empty variable.
pub open spec fn set_value(v: Option<Seq<char>>) -> bool {
    v is Some && v->0.len() > 0
}

/// The view of an optional string.
pub open spec fn opt_view(v: Option<&str>) -> Option<Seq<char>> {
    match v { Some(s) => Some(s@), None => None }
}

/// Message when no default location exists.
pub open spec fn no_default_text() -> Seq<char> {
    "no default location is defined on this platform; pass --data-dir or set DISKDRIFT_DATA_DIR"@
}

fn nonempty(v: Option<&str>) -> (b: bool)
    ensures
        b == set_value(opt_view(v)),
{
    match v {
        Some(s) => s.unicode_len() > 0,
        None => false,
    }
}

/// Resolve the data directory from the CLI override and the environment
/// (`DISKDRIFT_DATA_DIR`, `WHYBIG_DATA_DIR`, `APPDATA`, `XDG_DATA_HOME`,
/// `HOME`) on `platform`.
pub fn resolve_data_dir(override_dir: Option<&str>, diskdrift_env: Option<&str>, whybig_env: Option<&str>,
    xdg_data_home: Option<&str>, home: Option<&str>, platform: Platform, appdata: Option<&str>) -> (r: Result<DataDirChoice, WhyBigError>)
    ensures
        match override_dir {
            Some(d) => r is Ok && r->Ok_0.dir@ == d@ && !r->Ok_0.from_legacy_env,
            None => if set_value(opt_view(diskdrift_env)) {
                r is Ok && r->Ok_0.dir@ == diskdrift_env->0@ && !r->Ok_0.from_legacy_env
            } else if set_value(opt_view(whybig_env)) {
                r is Ok && r->Ok_0.dir@ == whybig_env->0@ && r->Ok_0.from_legacy_env
            } else if platform == Platform::Windows && appdata is Some {
                r is Ok && r->Ok_0.dir@ == path_join(appdata->0@, "diskdrift"@) && !r->Ok_0.from_legacy_env
            } else if platform == Platform::MacOs && home is Some {
                r is Ok && r->Ok_0.dir@ == path_join(path_join(path_join(home->0@, "Library"@), "Application Support"@), "diskdrift"@)
                    && !r->Ok_0.from_legacy_env
            } else if set_value(opt_view(xdg_data_home)) {
                r is Ok && r->Ok_0.dir@ == path_join(xdg_data_home->0@, "diskdrift"@) && !r->Ok_0.from_legacy_env
            } else if home is Some {
                r is Ok && r->Ok_0.dir@ == path_join(path_join(path_join(home->0@, ".local"@), "share"@), "diskdrift"@)
                    && !r->Ok_0.from_legacy_env
            } else {
                r is Err && (r->Err_0 matches WhyBigError::DataDir(m) && m@ == no_default_text())
            },
        },
{
    if let Some(d) = override_dir {
        return Ok(DataDirChoice { dir: d.to_string(), from_legacy_env: false });
    }
    if nonempty(diskdrift_env) {
        return Ok(DataDirChoice { dir: diskdrift_env.unwrap().to_string(), from_legacy_env: false });
    }
    if nonempty(whybig_env) {
        return Ok(DataDirChoice { dir: whybig_env.unwrap().to_string(), from_legacy_env: true });
    }
    if platform == Platform::Windows {
        if let Some(a) = appdata {
            return Ok(DataDirChoice { dir: join(a, "diskdrift"), from_legacy_env: false });
        }
    }
    if platform == Platform::MacOs {
        if let Some(h) = home {
            let a = join(h, "Library");
            let b = join(a.as_str(), "Application Support");
            return Ok(DataDirChoice { dir: join(b.as_str(), "diskdrift"), from_legacy_env: false });
        }
    }
    if nonempty(xdg_data_home) {
        return Ok(DataDirChoice { dir: join(xdg_data_home.unwrap(), "diskdrift"), from_legacy_env: false });
    }
    if let Some(h) = home {
        let a = join(h, ".local");
        let b = join(a.as_str(), "share");
        return Ok(DataDirChoice { dir: join(b.as_str(), "diskdrift"), from_legacy_env: false });
    }
    Err(WhyBigError::DataDir(
        "no default location is defined on this platform; pass --data-dir or set DISKDRIFT_DATA_DIR".to_string(),
    ))
}

/// The SQLite database file inside the data directory.
pub fn db_path(data_dir: &str) -> (p: String)
    ensures
        p@ == path_join(data_dir@, "diskdrift.db"@),
{
    join(data_dir, "diskdrift.db")
}

/// The legacy (pre-release "WhyBig") data directory, if it can be
/// determined. Used only to *detect* old data: never modified.
pub fn legacy_data_dir(xdg_data_home: Option<&str>, home: Option<&str>, platform: Platform, appdata: Option<&str>) -> (r: Option<String>)
    ensures
        if platform == Platform::Windows && appdata is Some {
            r is Some && r->0@ == path_join(appdata->0@, "whybig"@)
        } else if platform == Platform::MacOs && home is Some {
            r is Some && r->0@ == path_join(path_join(path_join(home->0@, "Library"@), "Application Support"@), "whybig"@)
        } else if set_value(opt_view(xdg_data_home)) {
            r is Some && r->0@ == path_join(xdg_data_home->0@, "whybig"@)
        } else if home is Some {
            r is Some && r->0@ == path_join(path_join(path_join(home->0@, ".local"@), "share"@), "whybig"@)
        } else {
            r is None
        },
{
    if platform == Platform::Windows {
        if let Some(a) = appdata {
            return Some(join(a, "whybig"));
        }
    }
    if platform == Platform::MacOs {
        if let Some(h) = home {
            let a = join(h, "Library");
            let b = join(a.as_str(), "Application Support");
            return Some(join(b.as_str(), "whybig"));
        }
    }
    if nonempty(xdg_data_home) {
        return Some(join(xdg_data_home.unwrap(), "whybig"));
    }
    if let Some(h) = home {
        let a = join(h, ".local");
        let b = join(a.as_str(), "share");
        return Some(join(b.as_str(), "whybig"));
    }
    None
}

/// Where a legacy database would be: `whybig.sqlite3` in the legacy dir.
pub fn legacy_db_candidate(legacy_dir: &str) -> (p: String)
    ensures
        p@ == path_join(legacy_dir@, "whybig.sqlite3"@),
{
    join(legacy_dir, "whybig.sqlite3")
}

/// The legacy database file, when the candidate exists on disk.
pub fn legacy_db_path(candidate: Option<String>, exists: bool) -> (r: Option<String>)
    ensures
        r == (if exists { candidate } else { None }),
{
    if exists { candidate } else { None }
}

/// True when a legacy database was found.
pub fn legacy_data_exists(found: &Option<String>) -> (b: bool)
    ensures
        b == found is Some,
{
    found.is_some()
}

/// The one-line warning shown when the deprecated variable was used.
pub fn legacy_env_warning() -> (s: &'static str)
    ensures
        s@ == "warning: WHYBIG_DATA_DIR is deprecated. Use DISKDRIFT_DATA_DIR instead."@,
{
    "warning: WHYBIG_DATA_DIR is deprecated. Use DISKDRIFT_DATA_DIR instead."
}

} // verus!
