use diskdrift::pathutil::{
    is_direct_child, is_under, is_under_scope, join, normalize_abs, normalize_lexical,
    normalize_target, paths_equal, relative_display,
};

#[test]
fn is_under_detects_ancestry() {
    assert!(is_under("/foo/bar/baz", "/foo"));
    assert!(is_under("/foo/bar", "/foo/bar")); // equal counts as under
    assert!(!is_under("/foo/bar2", "/foo/bar")); // prefix collision!
    assert!(!is_under("/foobar", "/foo"));
    assert!(!is_under("/bar", "/foo/bar"));
}

#[test]
fn is_under_scope_preserves_normal_ancestry() {
    // The canonical spellings are those of paths below `/` that do not exist.
    assert!(is_under_scope("/foo/bar/baz", "/foo", Some("/foo/bar/baz"), Some("/foo")));
    assert!(is_under_scope("/foo/bar", "/foo/bar", Some("/foo/bar"), Some("/foo/bar")));
    assert!(!is_under_scope("/foo/bar2", "/foo/bar", Some("/foo/bar2"), Some("/foo/bar")));
    assert!(!is_under_scope("/other", "/foo", Some("/other"), Some("/foo")));
}

#[test]
fn is_under_scope_uses_canonical_spellings_as_fallback() {
    assert!(is_under_scope("/var/x", "/private/var", Some("/private/var/x"), Some("/private/var")));
    assert!(!is_under_scope("/var/x", "/private/var", None, Some("/private/var")));
}

#[test]
fn direct_child_is_exactly_one_level() {
    assert!(is_direct_child("/foo/bar", "/foo"));
    assert!(!is_direct_child("/foo/bar", "/foo/bar1")); // unrelated
    assert!(!is_direct_child("/foo/bar/baz", "/foo")); // two levels
    assert!(!is_direct_child("/foo", "/foo")); // same
    assert!(!is_direct_child("/foo/bar", "/foo/bar"));
}

#[test]
fn direct_child_handles_slash_on_both_platforms() {
    // Trailing separators add no component.
    assert!(is_direct_child("/foo/bar/", "/foo"));
    assert!(is_direct_child("/foo/bar", "/foo/"));
}

#[test]
fn windows_drive_and_unc_do_not_crash() {
    // On Unix a literal "C:\..." is one component; must not panic and must
    // not pretend "bar" is under "foo".
    assert!(!is_under(r"C:\foo\bar", "C:\\foo"));
}

#[test]
fn relative_display_strips_root() {
    assert_eq!(relative_display("/root/.docker", "/root"), Some(".docker".into()));
    assert_eq!(relative_display("/root/a/b", "/root"), Some("a/b".into()));
    assert_eq!(relative_display("/root", "/root"), None);
    assert_eq!(relative_display("/other", "/root"), None);
}

#[test]
fn normalize_abs_is_identity_without_verbatim_prefix() {
    assert_eq!(normalize_abs("/a/b".to_string()), "/a/b");
}

#[test]
fn normalize_lexical_removes_dot_and_folds_dotdot() {
    assert_eq!(normalize_lexical("/a/b/./c"), "/a/b/c");
    assert_eq!(normalize_lexical("/a/b/.."), "/a");
    assert_eq!(normalize_lexical("/a/../b"), "/b");
    // ".." cannot escape above the root.
    assert_eq!(normalize_lexical("/../../x"), "/x");
    assert_eq!(normalize_lexical("."), ".");
    // root.join(".") collapses back to the root
    assert_eq!(normalize_lexical("/root/."), "/root");
}

#[test]
fn paths_compare_by_components() {
    assert!(paths_equal("/a//b/", "/a/b"));
    assert!(paths_equal("/a/./b", "/a/b"));
    assert!(!paths_equal("/a/b", "a/b"));
    assert!(!paths_equal("./a", "a"));
    assert!(paths_equal("a/.", "a"));
}

#[test]
fn join_and_normalize_target() {
    assert_eq!(join("/home/u", "docker"), "/home/u/docker");
    assert_eq!(join("/home/u/", "docker"), "/home/u/docker");
    assert_eq!(join("/home/u", "/tmp"), "/tmp");
    assert_eq!(normalize_target("src", Some("/work/proj")), "/work/proj/src");
    assert_eq!(normalize_target("../x/./y", Some("/work/proj")), "/work/x/y");
    assert_eq!(normalize_target("/tmp", Some("/work")), "/tmp");
    assert_eq!(normalize_target("rel", None), "rel");
}

#[test]
fn is_under_scope_handles_macos_var_alias() {
    // `/var` canonicalizes to `/private/var` on macOS.
    assert!(is_under_scope("/var", "/private/var", Some("/private/var"), Some("/private/var")));
}

#[test]
fn is_under_scope_handles_missing_child_under_macos_var_alias() {
    // A vanished child is canonicalized through its nearest existing ancestor.
    assert!(is_under_scope(
        "/var/__diskdrift_missing_scope_test__/deleted",
        "/private/var",
        Some("/private/var/__diskdrift_missing_scope_test__/deleted"),
        Some("/private/var"),
    ));
}
