use studio_backend::components_catalog::conformance::{components_in_code, conformance_report};
use studio_backend::json::Json;

fn json(text: &str) -> Json {
    Json::parse(text).expect("test JSON parses")
}

fn comp(name: &str, kind: &str, description: &str) -> Json {
    json(&format!(
        r#"{{"name": "{name}", "kind": "{kind}", "description": "{description}"}}"#
    ))
}

fn strings(v: &[&str]) -> Vec<String> {
    v.iter().map(|s| (*s).to_owned()).collect()
}

#[test]
fn the_code_is_made_of_its_gears_and_plugins_only_sorted_once_each() {
    let comps = vec![
        comp("zeta", "gear", "z"),
        comp("alpha", "plugin", "a"),
        comp("alpha", "gear", "a again"),
        comp("lib-sdk", "sdk", "a library"),
        comp("unused", "gear", "not in the code"),
    ];
    let deps = strings(&["zeta", "alpha", "lib-sdk"]);
    assert_eq!(components_in_code(&comps, &deps), strings(&["alpha", "zeta"]));
}

#[test]
fn a_capability_is_implemented_by_a_component_of_the_code() {
    let comps = vec![
        comp("chat-core", "gear", "chat messaging"),
        comp("chat-lite", "gear", "chat"),
        comp("audit", "gear", "audit trail"),
    ];
    let terms = vec![("chat".to_owned(), strings(&["chat"]))];
    let report = conformance_report(
        &strings(&["chat", "billing"]),
        &comps,
        &[],
        &terms,
        &strings(&["chat-lite", "audit"]),
    );
    assert_eq!(report.components_in_code, strings(&["audit", "chat-lite"]));
    assert_eq!(report.total, 2);
    assert_eq!(report.items[0].capability, "chat");
    assert_eq!(report.items[0].status, "implemented");
    assert_eq!(report.items[0].implemented_by, strings(&["chat-lite"]));
    assert!(report.items[0].candidates.is_empty());
    assert_eq!(report.items[1].status, "missing");
    assert!(report.items[1].implemented_by.is_empty());
    assert_eq!(report.unexplained.len(), 1);
    assert_eq!(report.unexplained[0].name, "audit");
    assert!(report.unexplained[0].declares.is_empty());
}

#[test]
fn a_missing_capability_suggests_its_first_three_candidates() {
    let comps = vec![
        comp("d-chat", "gear", "chat"),
        comp("a-chat", "gear", "chat"),
        comp("c-chat", "gear", "chat"),
        comp("b-chat", "gear", "chat"),
    ];
    let report = conformance_report(&strings(&["chat"]), &comps, &[], &[], &[]);
    assert_eq!(report.items[0].status, "missing");
    assert_eq!(report.items[0].candidates, strings(&["a-chat", "b-chat", "c-chat"]));
    assert!(report.components_in_code.is_empty());
    assert!(report.unexplained.is_empty());
}

#[test]
fn an_unexplained_component_says_what_it_declares() {
    let comps = vec![comp("audit", "gear", "audit trail")];
    let profiles = vec![(
        "audit".to_owned(),
        json(r#"{"gear_name": "audit", "values": {"capabilities": " logging , ,audit "}}"#),
    )];
    let report = conformance_report(&strings(&["chat"]), &comps, &profiles, &[], &strings(&["audit"]));
    assert_eq!(report.unexplained.len(), 1);
    assert_eq!(report.unexplained[0].declares, strings(&["logging", "audit"]));
}
