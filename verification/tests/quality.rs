use studio_backend::documents::quality::{build_items, checkout_dirs, docs_for, Detector, SpecDoc};
use studio_backend::json::Json;

#[test]
fn only_the_four_detectors_are_accepted() {
    for name in ["purpose", "leak", "bloat", "traceability"] {
        assert_eq!(Detector::parse(name).map(Detector::as_str), Some(name));
    }
    assert_eq!(Detector::parse("PURPOSE"), Some(Detector::Purpose));
    assert_eq!(Detector::parse("vibes"), None);
    assert_eq!(Detector::parse(""), None);
}

#[test]
fn a_detector_name_is_read_trimmed() {
    assert_eq!(Detector::parse("  Bloat \n"), Some(Detector::Bloat));
    assert!(Detector::Bloat.whole_set());
    assert!(Detector::Traceability.whole_set());
    assert!(!Detector::Purpose.whole_set());
    assert!(!Detector::Leak.whole_set());
}

#[test]
fn a_binding_the_checkout_does_not_hold_is_dropped() {
    let by_path = vec![("a.md".to_string(), "A".to_string())];
    let wanted = vec![
        ("a.md".to_string(), Some("prd".to_string())),
        ("gone.md".to_string(), None),
    ];
    let docs = docs_for(&wanted, &by_path);
    assert_eq!(docs.len(), 1);
    assert_eq!(docs[0].path, "a.md");
    assert_eq!(docs[0].text, "A");
    assert_eq!(docs[0].doc_type.as_deref(), Some("prd"));
}

fn settings(text: &str) -> Json {
    Json::parse(text).expect("test settings are JSON")
}

#[test]
fn checkout_dirs_prefers_the_target_and_falls_back_to_the_name() {
    let settings = settings(
        r#"{ "repos": [
            { "name": "api", "target": "services/api", "source": "github" },
            { "name": "docs", "source": "gitlab" }
        ]}"#,
    );
    assert_eq!(checkout_dirs(&settings), vec!["services/api", "docs"]);
}

#[test]
fn a_local_source_has_no_checkout_to_read() {
    let settings = settings(
        r#"{ "repos": [
            { "name": "notes", "source": "local" },
            { "name": "api", "source": "github" }
        ]}"#,
    );
    assert_eq!(checkout_dirs(&settings), vec!["api"]);
}

#[test]
fn settings_with_no_repositories_name_no_directories() {
    assert!(checkout_dirs(&settings("{}")).is_empty());
    assert!(checkout_dirs(&settings(r#"{ "repos": [] }"#)).is_empty());
}

#[test]
fn a_directory_named_twice_is_read_once() {
    let settings = settings(
        r#"{ "repos": [
            { "name": "api", "target": "shared", "source": "github" },
            { "name": "shared", "source": "github" }
        ]}"#,
    );
    assert_eq!(checkout_dirs(&settings), vec!["shared"]);
}

fn doc(path: &str, text: &str, ty: Option<&str>) -> SpecDoc {
    SpecDoc {
        path: path.to_string(),
        text: text.to_string(),
        doc_type: ty.map(str::to_string),
    }
}

#[test]
fn a_per_document_detector_gets_one_item_each() {
    let docs = vec![doc("a.md", "A", Some("prd")), doc("b.md", "B", Some("adr"))];
    let items = build_items(Detector::Purpose, &docs, "project");
    assert_eq!(items.len(), 2);
    assert_eq!(items[0].id, "a.md");
    assert_eq!(
        items[0].payload.get("classify_doc_type").and_then(Json::as_bool),
        Some(true)
    );
    assert_eq!(items[0].payload.str_at("text"), Some("A"));
}

#[test]
fn a_whole_set_detector_gets_one_item_carrying_every_document() {
    let docs = vec![doc("a.md", "A", None), doc("b.md", "B", None)];
    let items = build_items(Detector::Bloat, &docs, "project-1");
    assert_eq!(items.len(), 1);
    assert_eq!(items[0].id, "project-1");
    let all = items[0].payload.get("docs").expect("docs");
    assert_eq!(all.str_at("a.md"), Some("A"));
    assert_eq!(all.str_at("b.md"), Some("B"));
}

#[test]
fn traceability_asks_for_extraction_and_no_second_opinion() {
    let items = build_items(Detector::Traceability, &[doc("a.md", "A", None)], "p");
    assert_eq!(items[0].payload.str_at("mode"), Some("extract"));
    assert_eq!(items[0].payload.get("verify").and_then(Json::as_bool), Some(false));
}

#[test]
fn leak_carries_the_type_the_document_claims() {
    let items = build_items(Detector::Leak, &[doc("a.md", "A", Some("prd"))], "p");
    assert_eq!(items[0].payload.str_at("doc_type"), Some("prd"));
    match items[0].payload.get("gate_threshold") {
        Some(Json::Number(t)) => assert_eq!(t, "0.05"),
        other => panic!("gate_threshold was {other:?}"),
    }
}

#[test]
fn no_documents_is_no_items_rather_than_an_empty_analysis() {
    for d in [
        Detector::Purpose,
        Detector::Leak,
        Detector::Bloat,
        Detector::Traceability,
    ] {
        assert!(build_items(d, &[], "p").is_empty(), "{}", d.as_str());
    }
}

#[test]
fn the_set_map_is_in_path_order_and_the_last_document_wins() {
    let docs = vec![doc("b.md", "B", None), doc("a.md", "A1", None), doc("a.md", "A2", None)];
    let items = build_items(Detector::Bloat, &docs, "s");
    match items[0].payload.get("docs") {
        Some(Json::Object(m)) => {
            let keys: Vec<&str> = m.iter().map(|(k, _)| k.as_str()).collect();
            assert_eq!(keys, ["a.md", "b.md"]);
        }
        other => panic!("docs was {other:?}"),
    }
    assert_eq!(
        items[0].payload.get("docs").and_then(|d| d.str_at("a.md")),
        Some("A2")
    );
}
