use broken_md_links::classify_link;

#[test]
fn local_target_resolves_against_the_files_directory() {
    let t = classify_link("dir/file.md", "other.md").unwrap();
    assert_eq!(t.resolved, "dir/other.md");
    assert_eq!(t.display, "dir/other.md");
    assert_eq!(t.fragment, None);
}

#[test]
fn fragment_splits_off_at_the_first_hash() {
    let t = classify_link("dir/file.md", "other.md#some-header").unwrap();
    assert_eq!(t.resolved, "dir/other.md");
    assert_eq!(t.fragment, Some("some-header".to_string()));
}

#[test]
fn empty_target_names_the_containing_file() {
    let t = classify_link("dir/file.md", "#intro").unwrap();
    assert_eq!(t.resolved, "dir/file.md");
    assert_eq!(t.fragment, Some("intro".to_string()));
}

#[test]
fn parent_steps_are_simplified_for_display_only() {
    let t = classify_link("a/b/file.md", "../x.md").unwrap();
    assert_eq!(t.resolved, "a/b/../x.md");
    assert_eq!(t.display, "a/x.md");
}

#[test]
fn absolute_target_stands_alone() {
    let t = classify_link("a/file.md", "/docs/x.md").unwrap();
    assert_eq!(t.resolved, "/docs/x.md");
}

#[test]
fn file_in_current_directory_resolves_bare() {
    let t = classify_link("file.md", "other.md").unwrap();
    assert_eq!(t.resolved, "other.md");
}

#[test]
fn url_schemes_are_external() {
    assert!(classify_link("f.md", "http://example.org/x").is_none());
    assert!(classify_link("f.md", "https://example.org").is_none());
    assert!(classify_link("f.md", "ftp://example.org/pub").is_none());
}

#[test]
fn email_addresses_are_external() {
    assert!(classify_link("f.md", "john@example.org").is_none());
}

#[test]
fn plain_words_are_not_emails() {
    assert!(classify_link("f.md", "john-at-example").is_some());
}

#[test]
fn scheme_must_be_a_prefix() {
    let t = classify_link("f.md", "not-http://x").unwrap();
    assert_eq!(t.resolved, "not-http://x");
}
