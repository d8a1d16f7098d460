use serve::listing::{build_listing, ChildRecord};

fn child(name: &str, is_dir: bool, size: Option<u64>, modified_secs: Option<u64>) -> ChildRecord {
    ChildRecord { name: name.to_string(), is_dir, size, modified_secs }
}

#[test]
fn parent_row_is_always_first() {
    // "!a" lowercases below ".." in code-point order, so a sorted parent
    // would not come first; it must anyway.
    let children = vec![
        child("!a", true, Some(4096), None),
        child("alpha", false, Some(3), None),
    ];
    let (rows, _) = build_listing(&children, "docs");
    assert_eq!(rows[0].name, "..");
    assert_eq!(rows[0].link_path, "/");
    assert!(rows[0].is_dir);
    assert_eq!(rows[0].size, "-");
    assert_eq!(rows[0].last_modified, "-");
    assert_eq!(rows[1].name, "!a");
}

#[test]
fn directories_precede_files_and_names_sort_case_insensitively() {
    let children = vec![
        child("B", false, Some(10), None),
        child("a", true, Some(4096), None),
        child("C", true, Some(4096), None),
    ];
    let (rows, _) = build_listing(&children, "");
    let names: Vec<&str> = rows.iter().map(|e| e.name.as_str()).collect();
    assert_eq!(names, vec!["a", "C", "B"]);
    assert!(rows[0].is_dir && rows[1].is_dir && !rows[2].is_dir);
    assert_eq!(rows[2].size, "10 B");
    assert_eq!(rows[0].size, "-");
}

#[test]
fn equal_keys_keep_enumeration_order() {
    let children = vec![
        child("DUP", false, Some(1), None),
        child("dup", false, Some(2), None),
    ];
    let (rows, _) = build_listing(&children, "");
    assert_eq!(rows[0].name, "DUP");
    assert_eq!(rows[1].name, "dup");
}

#[test]
fn root_listing_of_docs_and_readme() {
    let children = vec![
        child("readme.txt", false, Some(5), None),
        child("docs", true, Some(4096), None),
    ];
    let (rows, current) = build_listing(&children, "");
    assert_eq!(current, "");
    assert_eq!(rows.len(), 2);
    assert_eq!(rows[0].name, "docs");
    assert!(rows[0].is_dir);
    assert_eq!(rows[0].size, "-");
    assert_eq!(rows[0].link_path, "docs");
    assert_eq!(rows[1].name, "readme.txt");
    assert!(!rows[1].is_dir);
    assert_eq!(rows[1].size, "5 B");
    assert_eq!(rows[1].link_path, "readme.txt");
}

#[test]
fn empty_directory_lists_only_the_parent() {
    let children: Vec<ChildRecord> = Vec::new();
    let (rows, current) = build_listing(&children, "docs");
    assert_eq!(current, "docs");
    assert_eq!(rows.len(), 1);
    assert_eq!(rows[0].name, "..");
    assert_eq!(rows[0].link_path, "/");
}

#[test]
fn missing_metadata_degrades_to_placeholders() {
    let children = vec![child("ghost", false, None, None)];
    let (rows, _) = build_listing(&children, "");
    assert_eq!(rows[0].size, "-");
    assert_eq!(rows[0].last_modified, "-");
}

#[test]
fn timestamps_render_in_utc() {
    let children = vec![
        child("old", false, Some(3), Some(0)),
        child("new", false, Some(3), Some(1431648000)),
    ];
    let (rows, _) = build_listing(&children, "");
    assert_eq!(rows[0].name, "new");
    assert_eq!(rows[0].last_modified, "2015-05-15 00:00:00");
    assert_eq!(rows[1].name, "old");
    assert_eq!(rows[1].last_modified, "1970-01-01 00:00:00");
}

#[test]
fn listing_twice_is_identical() {
    let children = vec![
        child("b dir", true, Some(4096), Some(1000000000)),
        child("A File.txt", false, Some(1536), Some(2000000000)),
    ];
    let first = build_listing(&children, "some\\nested/dir");
    let second = build_listing(&children, "some\\nested/dir");
    assert_eq!(first.0, second.0);
    assert_eq!(first.1, second.1);
    assert_eq!(first.1, "some/nested/dir");
}

#[test]
fn nested_child_links_are_clean() {
    let children = vec![child("file one.txt", false, Some(1), None)];
    let (rows, current) = build_listing(&children, "/docs\\guides");
    assert_eq!(current, "docs/guides");
    assert_eq!(rows[0].name, "..");
    assert_eq!(rows[0].link_path, "/docs");
    assert_eq!(rows[1].link_path, "docs/guides/file one.txt");
    assert!(!rows[1].link_path.starts_with('/'));
    assert!(!rows[1].link_path.contains('\\'));
}
