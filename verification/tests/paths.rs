use studio_backend::documents::paths::{slug, suggested_path};

#[test]
fn a_title_becomes_a_path_under_its_type() {
    assert_eq!(
        suggested_path("prd", "Product Requirements"),
        "docs/prd/product-requirements.md"
    );
}

#[test]
fn a_run_of_punctuation_is_one_hyphen_not_several() {
    assert_eq!(slug("Product Requirements (v2)"), "product-requirements-v2");
    assert_eq!(slug("A -- B"), "a-b");
}

#[test]
fn the_ends_are_trimmed_rather_than_left_hanging() {
    assert_eq!(slug("  Hello!  "), "hello");
    assert_eq!(slug("...draft..."), "draft");
}

#[test]
fn a_title_with_nothing_sluggable_in_it_is_untitled_not_empty() {
    assert_eq!(slug("···"), "untitled");
    assert_eq!(suggested_path("prd", "···"), "docs/prd/untitled.md");
}

#[test]
fn a_title_pasted_from_a_document_is_capped() {
    let long = "word ".repeat(40);
    let out = slug(&long);
    assert!(out.len() <= 60, "{} chars", out.len());
    assert!(!out.ends_with('-'), "no hanging hyphen: {out}");
}

#[test]
fn case_and_digits_survive_as_themselves() {
    assert_eq!(slug("ADR 0007 Shell Tokens"), "adr-0007-shell-tokens");
}

#[test]
fn a_cut_that_would_leave_a_separator_stops_before_it() {
    // 59 characters of one word, then a second word: the separator would be
    // the sixtieth character, so the cut lands on the first word.
    let title = format!("{} b", "a".repeat(59));
    assert_eq!(slug(&title), "a".repeat(59));
    let title = format!("{} b", "a".repeat(58));
    assert_eq!(slug(&title), format!("{}-b", "a".repeat(58)));
}
