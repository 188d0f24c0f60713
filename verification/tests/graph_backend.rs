use std::collections::HashMap;
use std::time::{SystemTime, UNIX_EPOCH};

use studio_backend::artifact_ingest::graph_backend::{
    bounded_payload, excerpt, node_name, registration_is_fresh_at, registration_is_fresh_in,
    MAX_TEXT_EXCERPT_CHARS, TYPE_REGISTRATION_TTL_SECS,
};
use studio_backend::json::Json;

const TENANT: u128 = 0x7e1a;
const OTHER: u128 = 0x7e1b;

fn now() -> u64 {
    SystemTime::now().duration_since(UNIX_EPOCH).expect("after the epoch").as_secs()
}

/// A registration far enough in the past to be expired.
fn stale() -> u64 {
    now() - (TYPE_REGISTRATION_TTL_SECS + 1)
}

fn s(t: &str) -> Json {
    Json::Str(t.to_owned())
}

/// An object with its members in ascending key order, as `serde_json` keeps them.
fn obj(pairs: Vec<(&str, Json)>) -> Json {
    let mut members: Vec<(String, Json)> = pairs.into_iter().map(|(k, v)| (k.to_owned(), v)).collect();
    members.sort_by(|a, b| a.0.cmp(&b.0));
    Json::Object(members)
}

#[test]
fn a_tenant_we_have_never_registered_for_is_not_fresh() {
    let mut registered = HashMap::new();
    assert!(!registration_is_fresh_in(&mut registered, TENANT));
}

#[test]
fn a_recent_registration_is_fresh() {
    let mut registered = HashMap::from([(TENANT, now())]);
    assert!(registration_is_fresh_in(&mut registered, TENANT));
}

#[test]
fn an_expired_registration_is_not_fresh_and_is_forgotten() {
    let mut registered = HashMap::from([(TENANT, stale())]);
    assert!(!registration_is_fresh_in(&mut registered, TENANT));
    assert!(!registered.contains_key(&TENANT));
}

#[test]
fn one_tenants_registration_does_not_answer_for_another() {
    let mut registered = HashMap::from([(TENANT, now())]);
    assert!(!registration_is_fresh_in(&mut registered, OTHER));
    assert!(registration_is_fresh_in(&mut registered, TENANT));
}

#[test]
fn freshness_is_the_ttl_measured_from_the_registration() {
    let mut registered = HashMap::from([(TENANT, 1000u64)]);
    assert!(registration_is_fresh_at(&mut registered, TENANT, 1000 + 599));
    assert!(registration_is_fresh_at(&mut registered, TENANT, 10));
    assert_eq!(registered.get(&TENANT), Some(&1000));
    assert!(!registration_is_fresh_at(&mut registered, TENANT, 1000 + 600));
    assert!(registered.is_empty());
}

#[test]
fn file_text_becomes_a_bounded_excerpt() {
    let long = "x".repeat(MAX_TEXT_EXCERPT_CHARS + 100);
    let payload = bounded_payload(&obj(vec![
        ("path", s("a.md")),
        ("text", Json::Str(long)),
        ("has_text", Json::Bool(true)),
    ]));
    assert!(payload.get("text").is_none());
    assert_eq!(
        payload.get("text_excerpt").and_then(|t| t.as_str()).map(str::len),
        Some(MAX_TEXT_EXCERPT_CHARS)
    );
    assert_eq!(payload.get("path"), Some(&s("a.md")));
}

#[test]
fn an_empty_text_leaves_no_excerpt() {
    let payload = bounded_payload(&obj(vec![("path", s("a.bin")), ("text", s("  "))]));
    assert!(payload.get("text_excerpt").is_none());
    assert!(payload.get("text").is_none());
}

#[test]
fn an_oversized_payload_sheds_its_body_then_all_but_its_identity() {
    let body = "b".repeat(70_000);
    let payload = bounded_payload(&obj(vec![
        ("path", s("a.md")),
        ("body", Json::Str(body)),
        ("title", s("t")),
        ("text", s("some text")),
    ]));
    assert_eq!(payload.get("body"), None);
    assert_eq!(payload.get("text_excerpt"), None);
    assert_eq!(payload.get("title"), Some(&s("t")));

    let title = "t".repeat(70_000);
    let payload = bounded_payload(&obj(vec![
        ("path", s("a.md")),
        ("repo", s("r")),
        ("title", Json::Str(title)),
    ]));
    assert_eq!(payload, obj(vec![("path", s("a.md")), ("repo", s("r"))]));
    assert_eq!(bounded_payload(&s("not an object")), Json::Object(Vec::new()));
}

#[test]
fn an_excerpt_counts_characters_not_bytes() {
    assert_eq!(excerpt("ééé", 2), "éé");
    assert_eq!(excerpt("ab", 5), "ab");
    assert_eq!(excerpt("", 0), "");
}

#[test]
fn a_node_is_named_by_its_title_then_its_path() {
    assert_eq!(node_name(&obj(vec![("title", s("T")), ("path", s("p"))])), "T");
    assert_eq!(node_name(&obj(vec![("full_path", s("f")), ("path", s("p"))])), "p");
    assert_eq!(node_name(&obj(vec![("full_path", s("f"))])), "f");
    assert_eq!(node_name(&obj(vec![])), "");
}
