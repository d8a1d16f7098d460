use serve::paths::{child_link, decode_request_path, display_path, parent_link};

#[test]
fn decodes_percent_twenty_only() {
    assert_eq!(decode_request_path("a%20b"), "a b");
    assert_eq!(decode_request_path("no escapes"), "no escapes");
    assert_eq!(decode_request_path("%2x"), "%2x");
    assert_eq!(decode_request_path("%20%20"), "  ");
    assert_eq!(decode_request_path("%%20"), "% ");
    assert_eq!(decode_request_path(""), "");
    assert_eq!(decode_request_path("caf\u{e9}%20menu"), "caf\u{e9} menu");
}

#[test]
fn child_links_are_root_relative() {
    assert_eq!(child_link("", "a.txt"), "a.txt");
    assert_eq!(child_link("docs", "a.txt"), "docs/a.txt");
    assert_eq!(child_link("docs/sub", "x"), "docs/sub/x");
}

#[test]
fn child_links_never_start_with_a_slash_or_hold_backslashes() {
    assert_eq!(child_link("/docs", "x"), "docs/x");
    assert_eq!(child_link("docs\\sub", "x"), "docs/sub/x");
    assert_eq!(child_link("\\docs", "x"), "docs/x");
    let link = child_link("//deep\\nest", "file name.txt");
    assert!(!link.starts_with('/'));
    assert!(!link.contains('\\'));
    assert_eq!(link, "deep/nest/file name.txt");
}

#[test]
fn parent_links_are_slash_prefixed() {
    assert_eq!(parent_link("docs"), "/");
    assert_eq!(parent_link("docs/sub"), "/docs");
    assert_eq!(parent_link("docs\\sub"), "/docs");
    assert_eq!(parent_link("a/b/c"), "/a/b");
}

#[test]
fn display_path_trims_and_normalizes() {
    assert_eq!(display_path(""), "");
    assert_eq!(display_path("/docs/sub"), "docs/sub");
    assert_eq!(display_path("docs\\sub"), "docs/sub");
}
