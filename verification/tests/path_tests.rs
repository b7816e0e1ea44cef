use broken_md_links::simplify_path;

#[test]
fn parent_cancels_only_normal_components() {
    assert_eq!(simplify_path("../a/b/../c"), "../a/c");
}

#[test]
fn parent_cancels_single_component() {
    assert_eq!(simplify_path("a/../b"), "b");
}

#[test]
fn leading_parents_are_kept_in_relative_paths() {
    assert_eq!(simplify_path("../.."), "../..");
}

#[test]
fn current_dir_components_are_dropped() {
    assert_eq!(simplify_path("./a/b"), "a/b");
    assert_eq!(simplify_path("a/./b"), "a/b");
}

#[test]
fn absolute_paths_keep_their_root() {
    assert_eq!(simplify_path("/a/../b"), "/b");
    assert_eq!(simplify_path("/a/b"), "/a/b");
}

#[test]
fn parent_at_absolute_root_is_dropped() {
    assert_eq!(simplify_path("/.."), "/");
}

#[test]
fn repeated_separators_collapse() {
    assert_eq!(simplify_path("a//b/"), "a/b");
}

#[test]
fn empty_path_stays_empty() {
    assert_eq!(simplify_path(""), "");
}

#[test]
fn everything_cancelled_yields_empty() {
    assert_eq!(simplify_path("a/.."), "");
}
