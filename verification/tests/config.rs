//! Where the data lives: override, environment, platform default.

use diskdrift::config::{db_path, legacy_data_dir, legacy_data_exists, legacy_db_candidate, legacy_db_path, legacy_env_warning, resolve_data_dir, Platform};

#[test]
fn explicit_override_wins() {
    let c = resolve_data_dir(Some("/x/data"), Some("/env"), Some("/legacy"), Some("/xdg"), Some("/home/u"), Platform::Unix, None).unwrap();
    assert_eq!(c.dir, "/x/data");
    assert!(!c.from_legacy_env);
}

#[test]
fn env_var_is_used_when_no_override() {
    let c = resolve_data_dir(None, Some("/env"), None, Some("/xdg"), Some("/home/u"), Platform::Unix, None).unwrap();
    assert_eq!(c.dir, "/env");
}

#[test]
fn new_env_var_takes_precedence_over_legacy() {
    let c = resolve_data_dir(None, Some("/env"), Some("/legacy-placeholder"), None, Some("/home/u"), Platform::Unix, None).unwrap();
    assert_eq!(c.dir, "/env");
    assert!(!c.from_legacy_env);
}

#[test]
fn legacy_env_is_a_deprecated_fallback_with_stderr_notice() {
    let c = resolve_data_dir(None, Some(""), Some("/legacy"), Some("/xdg"), Some("/home/u"), Platform::Unix, None).unwrap();
    assert_eq!(c.dir, "/legacy");
    assert!(c.from_legacy_env);
    assert!(legacy_env_warning().contains("deprecated"));
    assert!(legacy_env_warning().contains("DISKDRIFT_DATA_DIR"));
}

#[test]
fn platform_defaults_follow_xdg_then_home() {
    assert_eq!(resolve_data_dir(None, None, None, Some("/xdg"), Some("/home/u"), Platform::Unix, None).unwrap().dir, "/xdg/diskdrift");
    assert_eq!(resolve_data_dir(None, None, None, Some(""), Some("/home/u"), Platform::Unix, None).unwrap().dir, "/home/u/.local/share/diskdrift");
    let err = resolve_data_dir(None, None, None, None, None, Platform::Unix, None).unwrap_err();
    assert!(err.message().contains("pass --data-dir"));
}

#[test]
fn db_path_is_inside_data_dir_under_new_name() {
    assert_eq!(db_path("C:\\appdata\\diskdrift"), "C:\\appdata\\diskdrift/diskdrift.db");
}

#[test]
fn default_database_filename_is_diskdrift_db() {
    assert!(db_path("/data").ends_with("/diskdrift.db"));
}

#[test]
fn legacy_helpers_point_at_old_layout_without_touching_it() {
    let dir = legacy_data_dir(None, Some("/home/u"), Platform::Unix, None).unwrap();
    assert!(dir.to_lowercase().contains("whybig"), "legacy dir must use the old name, got {dir:?}");
    assert_eq!(legacy_data_dir(Some("/xdg"), None, Platform::Unix, None).unwrap(), "/xdg/whybig");
    assert_eq!(legacy_data_dir(None, None, Platform::Unix, None), None);
    let cand = legacy_db_candidate(&dir);
    assert!(cand.contains("whybig.sqlite3"));
    let found = legacy_db_path(Some(cand.clone()), false);
    assert!(found.is_none());
    assert!(!legacy_data_exists(&found));
    let found = legacy_db_path(Some(cand), true);
    assert!(legacy_data_exists(&found));
}

#[test]
fn platform_defaults_follow_the_platform() {
    let w = resolve_data_dir(None, None, None, Some("/xdg"), Some("/home/u"), Platform::Windows, Some("/appdata")).unwrap();
    assert_eq!(w.dir, "/appdata/diskdrift");
    let w2 = resolve_data_dir(None, None, None, Some("/xdg"), Some("/home/u"), Platform::Windows, None).unwrap();
    assert_eq!(w2.dir, "/xdg/diskdrift");
    let m = resolve_data_dir(None, None, None, None, Some("/Users/u"), Platform::MacOs, None).unwrap();
    assert_eq!(m.dir, "/Users/u/Library/Application Support/diskdrift");
    let m2 = resolve_data_dir(None, None, None, Some("/xdg"), Some("/Users/u"), Platform::MacOs, None).unwrap();
    assert_eq!(m2.dir, "/Users/u/Library/Application Support/diskdrift");
    let m3 = resolve_data_dir(None, None, None, Some("/xdg"), None, Platform::MacOs, None).unwrap();
    assert_eq!(m3.dir, "/xdg/diskdrift");
    let u = resolve_data_dir(None, None, None, None, Some("/home/u"), Platform::Unix, Some("/appdata")).unwrap();
    assert_eq!(u.dir, "/home/u/.local/share/diskdrift");
}

#[test]
fn legacy_dir_follows_the_platform() {
    assert_eq!(legacy_data_dir(Some("/xdg"), Some("/h"), Platform::Windows, Some("/ad")).unwrap(), "/ad/whybig");
    assert_eq!(legacy_data_dir(None, Some("/h"), Platform::MacOs, None).unwrap(), "/h/Library/Application Support/whybig");
    assert_eq!(legacy_data_dir(Some("/xdg"), Some("/h"), Platform::MacOs, None).unwrap(), "/h/Library/Application Support/whybig");
}
