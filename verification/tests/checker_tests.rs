use broken_md_links::checker::line_of_offset;
use broken_md_links::{
    check_broken_links_in_dir, Checker, CheckerError, CheckerOptions, EntryInfo, TargetFacts,
    WalkAction,
};

fn default_options() -> CheckerOptions {
    CheckerOptions { ignore_header_links: false, disallow_dir_links: false }
}

#[test]
fn missing_target_yields_one_record_with_its_line() {
    let mut checker = Checker::new(default_options());
    let jobs = checker.begin_file("dir/file.md", "line one\n\n[x](missing.md)\n");
    assert_eq!(jobs.len(), 1);
    assert_eq!(jobs[0].line, 3);
    let need = checker.resolve_link(&jobs[0], &TargetFacts { canonical: None, is_file: false });
    assert!(need.is_none());
    assert_eq!(checker.errors.len(), 1);
    assert_eq!(checker.errors[0].file, "dir/file.md");
    assert_eq!(checker.errors[0].line, 3);
    assert_eq!(
        checker.errors[0].error,
        "broken link found: path 'dir/missing.md' does not exist"
    );
}

#[test]
fn present_header_yields_no_error() {
    let mut checker = Checker::new(default_options());
    let jobs = checker.begin_file("dir/a.md", "[x](other.md#section)\n");
    assert_eq!(jobs.len(), 1);
    let facts = TargetFacts { canonical: Some("/abs/dir/other.md".to_string()), is_file: true };
    let need = checker.resolve_link(&jobs[0], &facts).expect("slugs should be requested");
    assert_eq!(need.key, "/abs/dir/other.md");
    checker.finish_link(&jobs[0], &need, "# Section\n\nwords\n");
    assert_eq!(checker.errors.len(), 0);
    assert!(checker.into_result().is_ok());
}

#[test]
fn absent_header_yields_one_error() {
    let mut checker = Checker::new(default_options());
    let jobs = checker.begin_file("dir/a.md", "[x](other.md#section)\n");
    let facts = TargetFacts { canonical: Some("/abs/dir/other.md".to_string()), is_file: true };
    let need = checker.resolve_link(&jobs[0], &facts).expect("slugs should be requested");
    checker.finish_link(&jobs[0], &need, "# Another heading\n");
    assert_eq!(checker.errors.len(), 1);
    assert_eq!(
        checker.errors[0].error,
        "broken link found: header 'section' not found in 'dir/other.md'"
    );
}

#[test]
fn slugs_are_extracted_at_most_once_per_target() {
    let mut checker = Checker::new(default_options());
    let mut extractions: usize = 0;
    let facts = TargetFacts { canonical: Some("/abs/shared.md".to_string()), is_file: true };

    let jobs_a = checker.begin_file("a.md", "[x](shared.md#intro)\n");
    if let Some(need) = checker.resolve_link(&jobs_a[0], &facts) {
        extractions += 1;
        checker.finish_link(&jobs_a[0], &need, "# Intro\n");
    }
    let jobs_b = checker.begin_file("b.md", "[y](shared.md#intro)\n");
    if let Some(need) = checker.resolve_link(&jobs_b[0], &facts) {
        extractions += 1;
        checker.finish_link(&jobs_b[0], &need, "# Intro\n");
    }

    assert_eq!(extractions, 1);
    assert_eq!(checker.errors.len(), 0);
}

#[test]
fn directory_link_is_an_error_only_when_disallowed() {
    let strict = CheckerOptions { ignore_header_links: false, disallow_dir_links: true };
    let mut checker = Checker::new(strict);
    let jobs = checker.begin_file("d/f.md", "[x](sub)\n");
    let facts = TargetFacts { canonical: Some("/abs/d/sub".to_string()), is_file: false };
    let need = checker.resolve_link(&jobs[0], &facts);
    assert!(need.is_none());
    assert_eq!(checker.errors.len(), 1);
    assert_eq!(
        checker.errors[0].error,
        "invalid link found: path 'd/sub' is a directory but only file links are allowed"
    );

    let mut lenient = Checker::new(default_options());
    let jobs = lenient.begin_file("d/f.md", "[x](sub)\n");
    let need = lenient.resolve_link(&jobs[0], &facts);
    assert!(need.is_none());
    assert_eq!(lenient.errors.len(), 0);
}

#[test]
fn fragment_into_a_directory_is_an_error() {
    let mut checker = Checker::new(default_options());
    let jobs = checker.begin_file("d/f.md", "[x](sub#part)\n");
    let facts = TargetFacts { canonical: Some("/abs/d/sub".to_string()), is_file: false };
    let need = checker.resolve_link(&jobs[0], &facts);
    assert!(need.is_none());
    assert_eq!(checker.errors.len(), 1);
    assert_eq!(
        checker.errors[0].error,
        "invalid header link found: path 'd/sub' exists but is not a file"
    );
}

#[test]
fn ignoring_header_links_skips_fragment_checks() {
    let opts = CheckerOptions { ignore_header_links: true, disallow_dir_links: false };
    let mut checker = Checker::new(opts);
    let jobs = checker.begin_file("a.md", "[x](other.md#whatever)\n");
    let facts = TargetFacts { canonical: Some("/abs/other.md".to_string()), is_file: true };
    let need = checker.resolve_link(&jobs[0], &facts);
    assert!(need.is_none());
    assert_eq!(checker.errors.len(), 0);
}

#[test]
fn external_links_yield_no_jobs() {
    let mut checker = Checker::new(default_options());
    let jobs = checker.begin_file(
        "a.md",
        "[u](http://example.org) and [m](john@example.org)\n",
    );
    assert_eq!(jobs.len(), 0);
    assert_eq!(checker.errors.len(), 0);
}

#[test]
fn link_inside_a_heading_feeds_both_title_and_jobs() {
    let mut checker = Checker::new(default_options());
    let content = "# Head [x](a.md)\n";
    let jobs = checker.begin_file("dir/f.md", content);
    assert_eq!(jobs.len(), 1);
    assert_eq!(jobs[0].target.resolved, "dir/a.md");
    assert_eq!(broken_md_links::generate_slugs(content), vec!["head-x".to_string()]);
}

#[test]
fn reference_without_definition_is_reported() {
    let mut checker = Checker::new(default_options());
    let jobs = checker.begin_file("a.md", "see [spec] for details\n");
    assert_eq!(jobs.len(), 0);
    assert_eq!(checker.errors.len(), 1);
    assert_eq!(checker.errors[0].error, "missing target for link 'spec'");
    assert_eq!(checker.errors[0].line, 1);
}

#[test]
fn one_broken_link_across_two_files_yields_exactly_one_record() {
    let mut checker = Checker::new(default_options());

    let jobs = checker.begin_file("tree/good.md", "[ok](other.md)\n");
    let ok_facts = TargetFacts { canonical: Some("/abs/tree/other.md".to_string()), is_file: true };
    assert!(checker.resolve_link(&jobs[0], &ok_facts).is_none());

    let jobs = checker.begin_file("tree/bad.md", "\n[broken](gone.md)\n");
    assert!(checker
        .resolve_link(&jobs[0], &TargetFacts { canonical: None, is_file: false })
        .is_none());

    assert_eq!(checker.errors.len(), 1);
    assert_eq!(checker.errors[0].file, "tree/bad.md");
    assert_eq!(checker.errors[0].line, 2);
    match checker.into_result() {
        Err(CheckerError::BrokenLinks(list)) => assert_eq!(list.len(), 1),
        _ => panic!("expected a broken-links failure"),
    }
}

#[test]
fn line_numbers_count_preceding_newlines() {
    let text = "ab\ncd\n\nef";
    assert_eq!(line_of_offset(text, 0), 1);
    assert_eq!(line_of_offset(text, 2), 1);
    assert_eq!(line_of_offset(text, 3), 2);
    assert_eq!(line_of_offset(text, 6), 3);
    assert_eq!(line_of_offset(text, 7), 4);
    assert_eq!(line_of_offset(text, 1000), 4);
}

#[test]
fn empty_scan_succeeds() {
    let checker = Checker::new(default_options());
    assert!(matches!(checker.into_result(), Ok(())));
}

#[test]
fn io_error_carries_its_message() {
    let err = CheckerError::Io("some message".to_string());
    match err {
        CheckerError::Io(m) => assert_eq!(m, "some message"),
        CheckerError::BrokenLinks(_) => panic!("wrong variant"),
    }
}

#[test]
fn directory_plan_recurses_checks_and_skips() {
    let entries = vec![
        EntryInfo { path: "root/sub".to_string(), is_dir: true, is_file: false },
        EntryInfo { path: "root/a.md".to_string(), is_dir: false, is_file: true },
        EntryInfo { path: "root/notes.txt".to_string(), is_dir: false, is_file: true },
        EntryInfo { path: "root/B.MD".to_string(), is_dir: false, is_file: true },
        EntryInfo { path: "root/socket".to_string(), is_dir: false, is_file: false },
    ];
    let plan = check_broken_links_in_dir(&entries);
    assert_eq!(plan.len(), 5);
    assert!(matches!(&plan[0], WalkAction::Recurse(p) if p == "root/sub"));
    assert!(matches!(&plan[1], WalkAction::CheckFile(p) if p == "root/a.md"));
    assert!(matches!(&plan[2], WalkAction::Skip));
    assert!(matches!(&plan[3], WalkAction::CheckFile(p) if p == "root/B.MD"));
    assert!(matches!(&plan[4], WalkAction::Skip));
}

#[test]
fn hidden_file_without_extension_is_skipped() {
    let entries = vec![EntryInfo { path: "root/.md".to_string(), is_dir: false, is_file: true }];
    let plan = check_broken_links_in_dir(&entries);
    assert!(matches!(&plan[0], WalkAction::Skip));
}

#[test]
fn second_link_to_cached_target_still_checks_its_fragment() {
    let mut checker = Checker::new(default_options());
    let facts = TargetFacts { canonical: Some("/abs/shared.md".to_string()), is_file: true };

    let jobs = checker.begin_file("a.md", "[x](shared.md#intro)\n");
    let need = checker.resolve_link(&jobs[0], &facts).expect("first lookup misses");
    checker.finish_link(&jobs[0], &need, "# Intro\n");

    let jobs = checker.begin_file("b.md", "[y](shared.md#conclusion)\n");
    assert!(checker.resolve_link(&jobs[0], &facts).is_none());
    assert_eq!(checker.errors.len(), 1);
    assert_eq!(
        checker.errors[0].error,
        "broken link found: header 'conclusion' not found in 'shared.md'"
    );
}
