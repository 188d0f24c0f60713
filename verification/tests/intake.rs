use studio_backend::documents::intake::{declared_capabilities, generate, seeded_capabilities, Answer};
use studio_backend::documents::model::{DocumentType, Owner, Question, QuestionKind, Rules, Section, TemplateSpec};
use studio_backend::documents::validate::validate;

const PRD_BODY: &str = "---
type: prd
status: draft
owner: 
---

# PRD — {Gear/Feature Name}

## 1. Overview

### 1.1 Purpose

<why this exists and who it is for>

## 2. Actors

The people and systems that use it.

## 3. Operational Concept & Environment

Where and how it runs.

## 4. Scope

What is in and out of scope.

## 5. Functional Requirements

What it must do.

## 14. Traceability

Links to designs and tests.
";

fn section(key: &str, title: &str) -> Section {
    Section {
        key: key.to_string(),
        title: title.to_string(),
        required: true,
        min_words: None,
        description: None,
        aliases: Vec::new(),
    }
}

fn question(id: &str, prompt: &str, kind: QuestionKind, section: &str, capability: Option<&str>) -> Question {
    Question {
        id: id.to_string(),
        prompt: prompt.to_string(),
        kind,
        section: Some(section.to_string()),
        capability: capability.map(str::to_string),
    }
}

/// A product requirements document type: its template and the questionnaire
/// that fills it.
fn prd() -> DocumentType {
    DocumentType {
        key: "prd".to_string(),
        name: "PRD".to_string(),
        template: TemplateSpec {
            body: PRD_BODY.to_string(),
            sections: vec![
                section("overview", "Overview"),
                section("actors", "Actors"),
                section("operational", "Operational Concept & Environment"),
                section("scope", "Scope"),
                section("functional_requirements", "Functional Requirements"),
                section("traceability", "Traceability"),
            ],
            rules: Rules::default(),
            questionnaire: vec![
                question(
                    "product",
                    "What are we building? Describe the product and its core domain",
                    QuestionKind::LongText,
                    "overview",
                    Some("domain"),
                ),
                question("primary_users", "Who are the primary users?", QuestionKind::Text, "actors", None),
                question("tenancy", "How are tenants organised?", QuestionKind::Single, "actors", Some("tenancy")),
                question("auth", "How do users sign in?", QuestionKind::Single, "functional_requirements", Some("auth")),
                question(
                    "rbac",
                    "Do you need role-based access control?",
                    QuestionKind::Bool,
                    "functional_requirements",
                    Some("rbac"),
                ),
                question("storage", "What data stores do you need?", QuestionKind::Multi, "operational", Some("storage")),
                question("deploy", "Where does it run?", QuestionKind::Single, "operational", Some("deploy")),
                question("billing", "Do you need billing?", QuestionKind::Bool, "functional_requirements", Some("billing")),
            ],
            review: None,
        },
        owner: Owner::Builtin,
    }
}

fn text(id: &str, value: &str) -> Answer {
    Answer {
        question_id: id.to_string(),
        text: Some(value.to_string()),
        ..Answer::default()
    }
}

fn flag(id: &str, value: bool) -> Answer {
    Answer {
        question_id: id.to_string(),
        flag: Some(value),
        ..Answer::default()
    }
}

fn multi(id: &str, values: &[&str]) -> Answer {
    Answer {
        question_id: id.to_string(),
        choices: Some(values.iter().map(|v| (*v).to_string()).collect()),
        ..Answer::default()
    }
}

/// One answer per question the intake cannot do without.
fn full_answers() -> Vec<Answer> {
    vec![
        text(
            "product",
            "A portal that turns a product idea into a running application by                  composing gears, so a team can go from an intent to a deployed                  service without writing the plumbing themselves.",
        ),
        text("primary_users", "Product teams and the platform engineers supporting them"),
        text("tenancy", "Hierarchical tenants"),
        text("auth", "SSO / OIDC (Keycloak)"),
        flag("rbac", true),
        multi("storage", &["Relational (Postgres)", "Documents / graph"]),
        text("deploy", "Kubernetes"),
    ]
}

/// The text between `heading` and the next `## `, for asserting where an
/// answer landed.
fn under<'a>(body: &'a str, heading: &str) -> &'a str {
    let start = body.find(heading).expect("heading present") + heading.len();
    let rest = &body[start..];
    &rest[..rest.find("\n## ").unwrap_or(rest.len())]
}

#[test]
fn reading_capabilities_out_of_a_document_without_front_matter_is_not_an_error() {
    assert!(declared_capabilities(
        "# Just a heading
"
    )
    .is_empty());
    assert!(declared_capabilities("").is_empty());
    assert!(declared_capabilities(
        "---
status: draft
---
"
    )
    .is_empty());
}

#[test]
fn capabilities_read_the_way_people_write_them() {
    assert_eq!(
        declared_capabilities("---\ntype: prd\ncapabilities: auth, storage\n---\n# X\n"),
        vec!["auth", "storage"]
    );
    assert_eq!(
        declared_capabilities("---\r\ntype: prd\r\ncapabilities: auth, storage\r\n---\r\n# X\r\n"),
        vec!["auth", "storage"]
    );
    assert_eq!(
        declared_capabilities("---\ncapabilities: [auth, \"storage\", 'deploy']\n---\n"),
        vec!["auth", "storage", "deploy"]
    );
}

#[test]
fn a_byte_order_mark_does_not_hide_the_front_matter() {
    assert_eq!(
        declared_capabilities("\u{feff}---\ncapabilities: a,, b ,\n---\n"),
        vec!["a", "b"]
    );
}

#[test]
fn front_matter_that_is_never_closed_declares_nothing() {
    assert!(declared_capabilities("---\ncapabilities: a\n").is_empty());
    assert!(declared_capabilities("---\nowner: me\n---\ncapabilities: a\n").is_empty());
}

#[test]
fn the_first_capabilities_line_is_the_one_read() {
    assert_eq!(
        declared_capabilities("---\n  capabilities: x\ncapabilities: y\n---\n"),
        vec!["x"]
    );
}

#[test]
fn a_generated_document_is_the_template_with_the_answers_written_in() {
    let ty = prd();
    let body = generate(&ty, "Constructor Studio", &full_answers());

    assert!(body.contains("# PRD — Constructor Studio\n"), "{body}");
    assert!(body.starts_with("---\ntype: prd\nstatus: draft\n"), "{body}");
    assert!(body.contains("### 1.1 Purpose"), "the skeleton survives");
    assert!(body.contains("## 14. Traceability"), "the skeleton survives");

    assert!(under(&body, "## 1. Overview").contains("A portal that turns"));
    assert!(under(&body, "## 2. Actors").contains("Hierarchical tenants"));
    assert!(under(&body, "## 3. Operational Concept & Environment").contains("Kubernetes"));
    assert!(under(&body, "## 5. Functional Requirements").contains("SSO / OIDC"));

    let report = validate(&body, &ty.template);
    for section in ["Overview", "Actors", "Functional Requirements"] {
        assert!(
            !report.issues.iter().any(|i| i.contains(section)),
            "the questionnaire fills {section}: {:?}",
            report.issues
        );
    }
    assert!(!report.conforms, "a PRD from eleven answers is not finished");
    assert!(report.issues.iter().any(|i| i.contains("placeholder")), "{:?}", report.issues);
}

#[test]
fn every_declared_section_is_emitted_even_with_no_answers() {
    let ty = prd();
    let body = generate(&ty, "Empty", &[]);
    let report = validate(&body, &ty.template);
    for section in &report.sections {
        assert!(section.present, "missing section {}", section.title);
    }
}

#[test]
fn a_section_the_template_has_no_heading_for_is_appended() {
    let mut ty = prd();
    ty.template.body = "# Brief — <title>\n\n## 1. Overview\n".to_string();
    let body = generate(&ty, "Short", &full_answers());
    assert!(under(&body, "## 1. Overview").contains("A portal that turns"));
    assert!(under(&body, "## Actors").contains("Hierarchical tenants"));
    assert!(body.starts_with("---\nstatus: draft\n"));
    assert!(body.contains("# Brief — Short\n"));
}

#[test]
fn an_unanswered_question_leaves_no_trace() {
    let ty = prd();
    let body = generate(&ty, "Empty", &[]);
    assert!(!body.contains("**Who are the primary users?**"));
}

#[test]
fn the_first_answer_alone_seeds_the_domain_capability() {
    let ty = prd();
    let answers = vec![text("product", "A billing portal for resellers.")];
    assert_eq!(seeded_capabilities(&ty, &answers), vec!["domain"]);

    let body = generate(&ty, "Reseller Billing", &answers);
    assert_eq!(declared_capabilities(&body), vec!["domain"]);
    assert!(body.contains("A billing portal for resellers."));
    assert!(body.contains("## 3. Operational Concept & Environment"));
}

#[test]
fn a_no_answer_does_not_seed_its_capability() {
    let ty = prd();
    let seeded = seeded_capabilities(&ty, &[flag("billing", false)]);
    assert!(seeded.is_empty());

    let seeded = seeded_capabilities(&ty, &[flag("billing", true)]);
    assert_eq!(seeded, vec!["billing"]);
}

#[test]
fn capabilities_survive_the_round_trip_through_the_document() {
    let ty = prd();
    let answers = full_answers();
    let expected = seeded_capabilities(&ty, &answers);
    assert!(!expected.is_empty(), "the fixture should seed something");

    let body = generate(&ty, "Constructor Studio", &answers);
    assert_eq!(declared_capabilities(&body), expected);
}

#[test]
fn a_document_with_no_capabilities_has_no_capabilities_line() {
    let ty = prd();
    let body = generate(&ty, "Empty", &[]);
    assert!(!body.contains("capabilities:"));
    assert!(declared_capabilities(&body).is_empty());
}

#[test]
fn a_capability_seeded_twice_appears_once() {
    let mut ty = prd();
    let first = ty.template.questionnaire[0].clone();
    let mut second = first.clone();
    second.id = format!("{}_again", first.id);
    ty.template.questionnaire.push(second.clone());

    let seeded = seeded_capabilities(&ty, &[text(&first.id, "yes"), text(&second.id, "also yes")]);
    assert_eq!(seeded.len(), 1, "got {seeded:?}");
}

#[test]
fn a_generated_document_reads_exactly_as_written() {
    let mut ty = prd();
    ty.template.body = "---\ncapabilities: stale\nowner: ada\n---\n\n# Note\n\n```\n## Actors\n```\n## Actors\n".to_string();
    ty.template.sections = vec![section("actors", "Actors"), section("scope", "Scope")];
    let body = generate(&ty, "  Title  ", &[text("tenancy", " Flat "), flag("rbac", true)]);
    assert_eq!(
        body,
        "---\nstatus: draft\nowner: ada\ncapabilities: tenancy, rbac\n---\n\n# PRD — Title\n\n```\n## Actors\n```\n## Actors\n\n**How are tenants organised?**\n\nFlat\n\n## Scope\n\n"
    );
    assert_eq!(seeded_capabilities(&ty, &[text("tenancy", " Flat "), flag("rbac", true)]), vec!["tenancy", "rbac"]);
}
