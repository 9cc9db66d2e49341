use diskdrift::storage::pattern::{like_escape, subtree_like_pattern};

#[test]
fn escapes_metacharacters_only() {
    assert_eq!(like_escape("a/b"), "a/b");
    assert_eq!(like_escape("a%_\\b"), "a\\%\\_\\\\b");
}

#[test]
fn normal_parent_has_boundary_separator() {
    let pat = subtree_like_pattern("dir");
    assert!(pat.ends_with('%'));
    let literal = pat.trim_end_matches('%');
    let sep_pair = like_escape("/");
    assert!(
        literal.ends_with(&sep_pair),
        "pattern {pat} must bound the parent with the separator"
    );
}

#[test]
fn root_parent_does_not_duplicate_separator() {
    // "/" ends with the separator → no boundary appended.
    assert_eq!(subtree_like_pattern("/"), "/%");
    assert!(subtree_like_pattern("/data").ends_with('%'));
}

#[test]
fn escaped_parent_keeps_names_with_metacharacters_literal() {
    assert_eq!(subtree_like_pattern("/a/100% done"), "/a/100\\% done/%");
    assert_eq!(subtree_like_pattern("/under_score"), "/under\\_score/%");
}
