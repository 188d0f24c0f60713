use studio_backend::documents::model::{Rules, Section, TemplateSpec};
use studio_backend::documents::validate::{
    has_angle_placeholder, has_brace_placeholder, headings, split_front_matter, strip_code,
    validate,
};

fn spec(sections: Vec<Section>) -> TemplateSpec {
    TemplateSpec {
        body: String::new(),
        sections,
        rules: Rules {
            front_matter: vec!["status".to_string()],
            ..Rules::default()
        },
        questionnaire: Vec::new(),
        review: None,
    }
}

fn sec(key: &str, title: &str, required: bool, min_words: Option<usize>) -> Section {
    Section {
        key: key.to_string(),
        title: title.to_string(),
        required,
        min_words,
        description: None,
        aliases: Vec::new(),
    }
}

const FRONT: &str = "---
status: draft
---

# A Real Title Here

";

#[test]
fn an_empty_optional_section_does_not_make_a_document_non_conforming() {
    let spec = spec(vec![
        sec("problem", "Problem", true, None),
        sec("risks", "Risks", false, None),
    ]);
    let body = format!(
        "{FRONT}## Problem

Something is broken.

## Risks

"
    );

    let report = validate(&body, &spec);
    assert!(report.conforms, "issues: {:?}", report.issues);
    let risks = report
        .sections
        .iter()
        .find(|s| s.key == "risks")
        .expect("risks reported");
    assert!(risks.present);
    assert!(!risks.ok, "the checklist still says it is unfilled");
}

#[test]
fn an_optional_section_that_is_written_but_too_short_still_fails() {
    let spec = spec(vec![sec("risks", "Risks", false, Some(10))]);
    let body = format!(
        "{FRONT}## Risks

Too short.
"
    );

    let report = validate(&body, &spec);
    assert!(!report.conforms);
    assert!(
        report.issues.iter().any(|i| i.contains("too short")),
        "{:?}",
        report.issues
    );
}

#[test]
fn a_missing_required_section_still_fails() {
    let spec = spec(vec![sec("problem", "Problem", true, None)]);
    let report = validate(FRONT, &spec);
    assert!(!report.conforms);
    assert!(
        report
            .issues
            .iter()
            .any(|i| i.contains("Missing required section")),
        "{:?}",
        report.issues
    );
}

#[test]
fn an_empty_required_section_still_fails() {
    let spec = spec(vec![sec("problem", "Problem", true, None)]);
    let body = format!(
        "{FRONT}## Problem

"
    );
    let report = validate(&body, &spec);
    assert!(!report.conforms);
    assert!(
        report.issues.iter().any(|i| i.contains("Section is empty")),
        "{:?}",
        report.issues
    );
}

#[test]
fn code_spans_and_fences_are_not_placeholders() {
    let spec = spec(vec![sec("context", "Context", true, None)]);
    let marker = ["TO", "DO"].concat();
    let body = format!(
        "{FRONT}## Context\n\n\
         Tailwind leaves a slot for `<alpha-value>`, and the sheet is loaded in `<head>`.\n\n\
         ```yaml\nimage: {{{{ .Values.image }}}}\n# {marker}: not ours\n```\n\n\
         That is all.\n"
    );
    let report = validate(&body, &spec);
    assert!(
        report.issues.iter().all(|i| !i.contains("placeholder")),
        "{:?}",
        report.issues
    );
    assert!(report.conforms, "{:?}", report.issues);
}

#[test]
fn placeholders_in_prose_are_still_caught() {
    let spec = spec(vec![sec("context", "Context", true, None)]);
    let body = format!("{FRONT}## Context\n\nTBD, see <the other doc>.\n");
    let report = validate(&body, &spec);
    assert!(!report.conforms);
    assert!(
        report.issues.iter().any(|i| i.contains("TBD")),
        "{:?}",
        report.issues
    );
    assert!(
        report.issues.iter().any(|i| i.contains('\u{2026}')),
        "{:?}",
        report.issues
    );
}

#[test]
fn numbered_headings_match_and_count_their_subsections() {
    let spec = spec(vec![sec("overview", "Overview", true, Some(5))]);
    let body = format!(
        "{FRONT}## 1. Overview\n\n### 1.1 Purpose\n\nThe gear keeps every tenant's files apart.\n\n## 2. Actors\n\nNobody.\n"
    );
    let report = validate(&body, &spec);
    assert!(report.conforms, "{:?}", report.issues);
    let overview = &report.sections[0];
    assert!(overview.present);
    assert_eq!(overview.word_count, 7, "Purpose's words, not Actors'");
}

#[test]
fn an_alias_stands_in_for_the_title() {
    let mut context = sec("context", "Context and Problem Statement", true, None);
    context.aliases = vec!["Context".to_string()];
    let body = format!("{FRONT}## Context\n\nWe keep losing uploads.\n");
    let report = validate(&body, &spec(vec![context]));
    assert!(report.conforms, "{:?}", report.issues);
}

#[test]
fn comments_are_ignored_and_fenced_hashes_are_not_headings() {
    let spec = spec(vec![sec("context", "Context", true, None)]);
    let body =
        format!("{FRONT}## Context\n\n<!--\n{{Describe the context}} <the problem>\n-->\n");
    let report = validate(&body, &spec);
    assert!(
        report.issues.iter().any(|i| i.contains("Section is empty")),
        "{:?}",
        report.issues
    );
    assert!(
        report.issues.iter().all(|i| !i.contains("placeholder")),
        "{:?}",
        report.issues
    );

    let fenced = format!("{FRONT}## Context\n\nSee below.\n\n```sh\n# Context\n```\n");
    assert_eq!(
        headings(&split_front_matter(&fenced).1)
            .iter()
            .filter(|h| h.title_norm == "context")
            .count(),
        1
    );
}

#[test]
fn a_brace_placeholder_in_prose_is_caught() {
    let spec = spec(vec![sec("context", "Context", true, None)]);
    let body = format!("{FRONT}## Context\n\n{{2-3 paragraphs: why this is needed now.}}\n");
    let report = validate(&body, &spec);
    assert!(!report.conforms);
    assert!(
        report.issues.iter().any(|i| i.contains("{…}")),
        "{:?}",
        report.issues
    );

    let body = format!(
        "{FRONT}## Context\n\nThe body is {{\"id\": 1}} and `cpt-{{system}}` is an id.\n"
    );
    assert!(validate(&body, &spec).conforms);
}

#[test]
fn front_matter_is_split_from_the_body_and_the_last_key_wins() {
    let (fm, body) = split_front_matter("---\nStatus : draft\nstatus: final\nno colon\n---\n# T\n");
    assert_eq!(
        fm,
        vec![
            ("status".to_string(), "draft".to_string()),
            ("status".to_string(), "final".to_string())
        ]
    );
    assert_eq!(body, "# T\n");
    let (fm, body) = split_front_matter("# no front matter\n");
    assert!(fm.is_empty());
    assert_eq!(body, "# no front matter\n");
    let (fm, body) = split_front_matter("---\nstatus: open\n");
    assert!(fm.is_empty());
    assert_eq!(body, "---\nstatus: open\n");
}

#[test]
fn a_crlf_front_matter_cuts_the_body_by_bytes() {
    // Each line is counted with one byte of line break, so a CRLF block
    // leaves its last bytes in front of the body.
    let (fm, body) = split_front_matter("---\r\na: b\r\n---\r\n# Title\r\n");
    assert_eq!(fm, vec![("a".to_string(), "b".to_string())]);
    assert_eq!(body, "\r\n# Title\r\n");
}

#[test]
fn headings_report_level_and_nested_words() {
    let hs = headings("# Top\nintro words\n## Sub\none two three\n# Next\nx\n");
    let got: Vec<(usize, String, usize)> = hs
        .iter()
        .map(|h| (h.level, h.title_norm.clone(), h.body_words))
        .collect();
    assert_eq!(
        got,
        vec![
            (1, "top".to_string(), 5),
            (2, "sub".to_string(), 3),
            (1, "next".to_string(), 1)
        ]
    );
    assert!(headings("#NoSpace\n####### seven\n").is_empty());
}

#[test]
fn prose_drops_code_and_comments() {
    assert_eq!(
        strip_code("a `b` c <!-- d --> e\n```\nf\n```\ng\n"),
        "a  c  e\ng\n"
    );
}

#[test]
fn angle_and_brace_scans() {
    assert!(has_angle_placeholder("see <the doc>"));
    assert!(!has_angle_placeholder("<T> and </x> and <a=b>"));
    assert!(!has_angle_placeholder("no closing < here"));
    assert!(has_brace_placeholder("x {Gear Name} y"));
    assert!(!has_brace_placeholder("{{ .Values }}"));
    assert!(!has_brace_placeholder("{\"a\": 1}"));
    assert!(!has_brace_placeholder("{unclosed"));
}

#[test]
fn a_short_title_and_a_missing_key_are_reported_in_order() {
    let mut spec = spec(vec![]);
    spec.rules.front_matter = vec!["owner".to_string(), "status".to_string()];
    spec.rules.min_title_words = 3;
    let report = validate("---\nstatus: \n---\n# Short\n", &spec);
    assert!(!report.conforms);
    assert_eq!(
        report.issues,
        vec![
            "Front-matter field \"owner\" is missing or empty".to_string(),
            "Front-matter field \"status\" is missing or empty".to_string(),
            "Title has 1 word(s), need at least 3".to_string(),
        ]
    );
}

#[test]
fn a_front_matter_title_wins_over_the_heading() {
    let mut spec = spec(vec![]);
    spec.rules.front_matter = vec![];
    spec.rules.min_title_words = 3;
    let report = validate("---\ntitle: One Two Three\n---\n# Short\n", &spec);
    assert!(report.conforms, "{:?}", report.issues);
    assert!(report.issues.is_empty());
}

#[test]
fn the_too_short_message_names_both_counts() {
    let spec = spec(vec![sec("risks", "Risks", true, Some(10))]);
    let report = validate(&format!("{FRONT}## Risks\n\nToo short.\n"), &spec);
    assert_eq!(
        report.issues,
        vec!["Section \"Risks\" is too short (2 words, need 10)".to_string()]
    );
    assert_eq!(report.sections[0].word_count, 2);
    assert!(!report.sections[0].ok);
}

#[test]
fn rules_default() {
    let r = Rules::default();
    assert!(r.front_matter.is_empty());
    assert_eq!(r.min_title_words, 2);
    assert!(r.forbid_placeholders);
}
