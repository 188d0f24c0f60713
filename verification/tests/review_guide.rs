use studio_backend::documents::model::{DocumentType, Owner, Rules, TemplateSpec};
use studio_backend::documents::review_guide::{criterion_heading, effective_guide, parse_checklist, ReviewGuide};

fn heading(h: &str) -> Option<(String, String)> {
    criterion_heading(h)
}

#[test]
fn a_heading_in_a_fence_is_text_and_a_deeper_heading_belongs_to_its_criterion() {
    let md = "# MUST HAVE\n## Things\n### A-001: First\n**Severity**: LOW\n- [ ] one\n\
              ```\n### B-002: Not a criterion\n```\n#### Detail\n- [x] two\n\
              ## Other\n### C-003: Third\n- [ ] three\n# Report\n### 1. Example: no\n";
    let items = parse_checklist(md);
    let ids: Vec<&str> = items.iter().map(|c| c.id.as_str()).collect();
    assert_eq!(ids, vec!["A-001", "C-003"]);
    assert_eq!(items[0].checks, vec!["one", "two"]);
    assert_eq!(items[0].severity.as_deref(), Some("LOW"));
    assert!(items[0].text.contains("B-002"));
    assert_eq!(items[1].section.as_deref(), Some("Other"));
    assert_eq!(items[1].severity, None);
}

#[test]
fn an_id_needs_a_dash_and_upper_case() {
    assert_eq!(
        heading("SEC-PRD-001: Auth"),
        Some(("SEC-PRD-001".to_owned(), "Auth".to_owned()))
    );
    assert_eq!(heading("Note: something"), None);
    assert_eq!(heading("TODO: later"), None);
    assert_eq!(heading("sec-001: lower"), None);
    assert_eq!(heading("A-001:"), None);
}

#[test]
fn a_criterion_carries_its_group_section_level_and_body() {
    let md = "# MUST NOT HAVE\n### ARCH-NO-001: No schemas\n**Severity**: HIGH\n\
              - [ ] No database schema definitions\n- [X] Nothing else\n\n\
              # ✅ SHOULD HAVE\n## 🧭 Guidance (G)\n### G-001: Hints\nSome text.\n";
    let items = parse_checklist(md);
    assert_eq!(items.len(), 2);
    assert_eq!(items[0].group, "MUST NOT HAVE");
    assert_eq!(items[0].level.as_deref(), Some("MUST NOT"));
    assert_eq!(items[0].section, None);
    assert_eq!(
        items[0].checks,
        vec!["No database schema definitions", "Nothing else"]
    );
    assert_eq!(
        items[0].text,
        "**Severity**: HIGH\n- [ ] No database schema definitions\n- [X] Nothing else"
    );
    assert_eq!(items[1].section.as_deref(), Some("Guidance (G)"));
    assert_eq!(items[1].level.as_deref(), Some("SHOULD"));
    assert_eq!(items[1].text, "Some text.");
}

#[test]
fn a_group_with_no_requirement_keyword_states_no_level() {
    let md = "# Format Validation\n### FMT-003: Shape\n**Severity**: CRITICAL\r\n- [ ] x\r\n";
    let items = parse_checklist(md);
    assert_eq!(items[0].level, None);
    assert_eq!(items[0].severity.as_deref(), Some("CRITICAL"));
    assert_eq!(items[0].checks, vec!["x"]);
}

#[test]
fn mustard_is_not_a_must() {
    let items = parse_checklist("# MUSTARD\n### A-1: x\n");
    assert_eq!(items[0].level, None);
    let items = parse_checklist("#NOT-A: heading\n### A-1: x\n");
    assert_eq!(items[0].group, "");
}

/// The kit's guide for `prd`, standing in for the vendored checklist.
fn kit_prd() -> ReviewGuide {
    ReviewGuide {
        checklist: "# MUST HAVE\n### SEC-PRD-001: Auth\n- [ ] stated\n".into(),
        rules: "kit rules".into(),
    }
}

/// The kit's guide for a key, as the caller looks it up.
fn builtin_guide(key: &str) -> Option<ReviewGuide> {
    if key == "prd" {
        Some(kit_prd())
    } else {
        None
    }
}

fn prd_type() -> DocumentType {
    DocumentType {
        key: "prd".into(),
        name: "PRD".into(),
        template: TemplateSpec {
            body: String::new(),
            sections: Vec::new(),
            rules: Rules::default(),
            questionnaire: Vec::new(),
            review: None,
        },
        owner: Owner::Builtin,
    }
}

#[test]
fn a_type_guide_wins_and_a_type_without_one_falls_back_to_its_key() {
    let mut ty = prd_type();
    let tenant = 0u128;
    ty.owner = Owner::Workspace { tenant_id: tenant };
    let (guide, owner) = effective_guide(&ty, builtin_guide(&ty.key)).expect("falls back");
    assert_eq!(owner, Owner::Builtin);
    assert_eq!(guide, builtin_guide("prd").expect("prd"));

    ty.template.review = Some(ReviewGuide {
        checklist: "# MUST HAVE\n### OWN-001: Ours\n- [ ] x\n".into(),
        rules: "ours".into(),
    });
    let (guide, owner) = effective_guide(&ty, builtin_guide(&ty.key)).expect("own");
    assert_eq!(owner, Owner::Workspace { tenant_id: tenant });
    assert_eq!(parse_checklist(&guide.checklist)[0].id, "OWN-001");

    ty.key = "vision".into();
    ty.template.review = None;
    assert!(effective_guide(&ty, builtin_guide(&ty.key)).is_none());
}
