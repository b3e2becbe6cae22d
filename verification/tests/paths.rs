use humus::paths::{path_covers, path_eq};

#[test]
fn exact_match_is_covered() {
    assert!(path_covers("/x", "/x"));
    assert!(path_covers("", ""));
    assert!(path_covers("/a/b", "/a/b"));
}

#[test]
fn proper_descendants_are_covered() {
    assert!(path_covers("/x", "/x/y"));
    assert!(path_covers("/x", "/x/y/z"));
    assert!(path_covers("/", "/x"));
    assert!(path_covers("", "/x"));
}

#[test]
fn string_prefixes_that_break_segments_are_not_covered() {
    assert!(!path_covers("/x", "/xfoo"));
    assert!(!path_covers("/foo", "/foobar"));
    assert!(!path_covers("/a/b", "/a/bc"));
}

#[test]
fn ancestors_and_siblings_are_not_covered() {
    assert!(!path_covers("/x/y", "/x"));
    assert!(!path_covers("/x", "/y"));
    assert!(!path_covers("/x", "/"));
    assert!(!path_covers("/x", ""));
}

#[test]
fn trailing_separator_on_the_query_marks_the_boundary() {
    assert!(path_covers("/x/", "/x/y"));
    assert!(!path_covers("/x/", "/x"));
}

#[test]
fn path_equality_is_exact() {
    assert!(path_eq("/a/b", "/a/b"));
    assert!(!path_eq("/a/b", "/a/c"));
    assert!(!path_eq("/a", "/a/"));
    assert!(path_eq("", ""));
}
