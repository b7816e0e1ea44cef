use broken_md_links::slug::slugs_from_events;
use broken_md_links::{generate_slugs, slugify, MdEvent};

#[test]
fn spaces_become_hyphens() {
    assert_eq!(slugify("My super header"), "my-super-header");
}

#[test]
fn punctuation_is_stripped() {
    assert_eq!(slugify("I love headers!"), "i-love-headers");
}

#[test]
fn punctuation_is_stripped_not_hyphenated() {
    assert_eq!(slugify("C++ guide"), "c-guide");
}

#[test]
fn underscores_hyphens_and_digits_survive() {
    assert_eq!(slugify("a_b-3 X"), "a_b-3-x");
}

#[test]
fn empty_title_yields_empty_slug() {
    assert_eq!(slugify(""), "");
}

#[test]
fn headings_are_collected_in_document_order() {
    let slugs = generate_slugs("# My super header\n\nbody text\n\n## Another one\n");
    assert_eq!(slugs, vec!["my-super-header".to_string(), "another-one".to_string()]);
}

#[test]
fn duplicate_headings_are_suffixed() {
    let slugs = generate_slugs("# Intro\n\n# Intro\n");
    assert_eq!(slugs, vec!["intro".to_string(), "intro-1".to_string()]);
}

#[test]
fn each_further_duplicate_counts_up() {
    let slugs = generate_slugs("# A\n# A\n# A\n");
    assert_eq!(slugs, vec!["a".to_string(), "a-1".to_string(), "a-2".to_string()]);
}

#[test]
fn duplicate_counters_reach_two_digits() {
    let doc = "# H\n".repeat(11);
    let slugs = generate_slugs(&doc);
    assert_eq!(slugs.len(), 11);
    assert_eq!(slugs[0], "h");
    assert_eq!(slugs[1], "h-1");
    assert_eq!(slugs[10], "h-10");
}

#[test]
fn inline_code_joins_the_title() {
    let slugs = generate_slugs("# Hello `code`!\n");
    assert_eq!(slugs, vec!["hello-code".to_string()]);
}

#[test]
fn titles_accumulate_between_heading_start_and_end() {
    let events = vec![
        MdEvent::HeadingStart,
        MdEvent::Text("My ".to_string()),
        MdEvent::Other,
        MdEvent::Text("super header".to_string()),
        MdEvent::HeadingEnd,
        MdEvent::Text("body text outside any heading".to_string()),
        MdEvent::HeadingStart,
        MdEvent::Text("My super header".to_string()),
        MdEvent::HeadingEnd,
    ];
    let slugs = slugs_from_events(&events);
    assert_eq!(slugs, vec!["my-super-header".to_string(), "my-super-header-1".to_string()]);
}

#[test]
fn unfinished_heading_yields_no_slug() {
    let events = vec![MdEvent::HeadingStart, MdEvent::Text("pending".to_string())];
    assert_eq!(slugs_from_events(&events), Vec::<String>::new());
}

#[test]
fn document_without_headings_has_no_slugs() {
    let slugs = generate_slugs("just a paragraph\n\n[a link](x.md)\n");
    assert_eq!(slugs, Vec::<String>::new());
}
