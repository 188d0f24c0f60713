use studio_backend::components_catalog::compose::{
    build_state, haystack, mentions, plan, profiles_by_gear, BuildState, SHORTLIST,
};
use studio_backend::json::Json;

fn json(text: &str) -> Json {
    Json::parse(text).expect("test JSON parses")
}

fn component(name: &str, description: &str) -> Json {
    json(&format!(
        r#"{{"name": "{name}", "kind": "gear", "description": "{description}"}}"#
    ))
}

fn vocabulary(pairs: &[(&str, &[&str])]) -> Vec<(String, Vec<String>)> {
    pairs
        .iter()
        .map(|(k, terms)| {
            (
                (*k).to_owned(),
                terms.iter().map(|t| (*t).to_owned()).collect(),
            )
        })
        .collect()
}

fn crates(n: u64) -> Json {
    json(&format!(r#"{{"auto": {{"crates": {{"n": {n}}}}}}}"#))
}

#[test]
fn a_built_component_outranks_a_stub_with_a_better_score() {
    let components = vec![
        component("chatty-stub", "chat chat chat messaging"),
        component("real-chat", "chat"),
    ];
    let profiles = vec![
        ("chatty-stub".to_owned(), crates(0)),
        ("real-chat".to_owned(), crates(3)),
    ];
    let rows = plan(
        &["chat".to_owned()],
        &components,
        &profiles,
        &vocabulary(&[("chat", &["chat", "messaging"])]),
    );
    assert_eq!(rows[0].candidates[0].name, "real-chat");
    assert_eq!(rows[0].candidates[0].built, BuildState::Built);
    assert_eq!(rows[0].candidates[1].built, BuildState::DocsOnly);
    assert!(!rows[0].unbuilt);
}

#[test]
fn a_capability_nothing_matches_is_a_gap() {
    let rows = plan(
        &["telepathy".to_owned()],
        &[component("chat", "messaging")],
        &[],
        &vocabulary(&[]),
    );
    assert!(rows[0].gap);
    assert!(!rows[0].unbuilt);
    assert!(rows[0].candidates.is_empty());
}

#[test]
fn candidates_that_are_all_unbuilt_are_said_out_loud() {
    let profiles = vec![("stub".to_owned(), crates(0))];
    let rows = plan(
        &["chat".to_owned()],
        &[component("stub", "chat")],
        &profiles,
        &vocabulary(&[]),
    );
    assert!(!rows[0].gap);
    assert!(rows[0].unbuilt);
}

#[test]
fn a_capability_the_vocabulary_does_not_know_is_matched_on_its_own_name() {
    let rows = plan(
        &["billing".to_owned()],
        &[component("billing-engine", "invoices")],
        &[],
        &vocabulary(&[]),
    );
    assert_eq!(rows[0].candidates[0].name, "billing-engine");
    assert_eq!(rows[0].candidates[0].why, vec!["billing".to_owned()]);
}

#[test]
fn the_shortlist_is_cut_after_the_sort_not_before() {
    let mut components: Vec<Json> = (0..6)
        .map(|i| component(&format!("stub-{i}"), "chat chat"))
        .collect();
    components.push(component("shipped", "chat"));
    let mut profiles: Vec<(String, Json)> = Vec::new();
    for i in 0..6 {
        profiles.push((format!("stub-{i}"), crates(0)));
    }
    profiles.push(("shipped".to_owned(), crates(2)));
    let rows = plan(
        &["chat".to_owned()],
        &components,
        &profiles,
        &vocabulary(&[]),
    );
    assert_eq!(rows[0].candidates.len(), SHORTLIST);
    assert_eq!(rows[0].candidates[0].name, "shipped");
}

#[test]
fn the_scans_own_word_is_preferred_to_the_crate_count() {
    let profile = json(r#"{"auto": {"gear_status": "docs-only", "crates": {"n": 9}}}"#);
    assert_eq!(build_state(Some(&profile)), BuildState::DocsOnly);
}

#[test]
fn no_profile_is_unknown_rather_than_docs_only() {
    assert_eq!(build_state(None), BuildState::Unknown);
    assert_eq!(build_state(Some(&json("{}"))), BuildState::Unknown);
}

#[test]
fn a_zero_crate_count_is_the_load_bearing_one() {
    let profile = crates(0);
    assert_eq!(build_state(Some(&profile)), BuildState::DocsOnly);
}

#[test]
fn the_haystack_is_every_word_about_the_component_lower_cased() {
    let c = json(
        r#"{"name": "Chat", "description": "Talk", "keywords": ["A", 1, "B"], "categories": ["Web"]}"#,
    );
    let p = json(r#"{"auto": {"description": {"s": "Scan Said"}}}"#);
    assert_eq!(haystack(&c, Some(&p)), "chat talk  a b web scan said");
    assert_eq!(haystack(&c, None), "chat talk  a b web ");
}

#[test]
fn a_term_counts_once_and_ties_sort_by_name() {
    let rows = plan(
        &["chat".to_owned()],
        &[component("b", "chat"), component("a", "chat")],
        &[],
        &vocabulary(&[("chat", &["chat", "chat"])]),
    );
    let names: Vec<&str> = rows[0].candidates.iter().map(|c| c.name.as_str()).collect();
    assert_eq!(names, ["a", "b"]);
    assert_eq!(rows[0].candidates[0].score, 1);
    assert_eq!(rows[0].candidates[0].kind, "gear");
    assert_eq!(rows[0].candidates[0].built, BuildState::Unknown);
}


#[test]
fn a_term_beginning_a_longer_word_matches() {
    assert!(mentions("deployment-topology", "deploy"));
    assert!(mentions("nodes-registry", "node"));
    assert!(mentions("subscriptions", "subscription"));
}

#[test]
fn a_term_swallowed_by_a_longer_word_does_not() {
    assert!(!mentions("resource", "source"));
    assert!(!mentions("profile", "file"));
    assert!(!mentions("machine-identity", "entity"));
    assert!(!mentions("cryptography", "graph"));
}

#[test]
fn punctuation_starts_a_word() {
    assert!(mentions("cf-gears-file-storage", "storage"));
    assert!(mentions("@gears-frontx/state", "state"));
}

#[test]
fn an_empty_term_matches_nothing() {
    assert!(!mentions("anything at all", "   "));
}

#[test]
fn a_term_is_trimmed_and_lower_cased_before_it_is_looked_for() {
    assert!(mentions("file-storage", "  Storage "));
    assert!(!mentions("File-Storage", "storage"));
}

#[test]
fn a_later_occurrence_at_a_word_start_still_counts() {
    assert!(mentions("resource source", "source"));
}

#[test]
fn a_wide_term_inside_a_word_is_no_mention_and_no_fault() {
    assert!(!mentions("xéa", "é"));
    assert!(!mentions("xélan", "élan"));
    assert!(mentions("x élan", "élan"));
    assert!(mentions("xé é", "é"));
}

#[test]
fn build_states_read_as_their_wire_names_and_rank_built_first() {
    assert_eq!(BuildState::Built.as_str(), "built");
    assert_eq!(BuildState::DocsOnly.as_str(), "docs-only");
    assert_eq!(BuildState::Unknown.as_str(), "unknown");
    assert!(BuildState::Built.rank() < BuildState::Unknown.rank());
    assert!(BuildState::Unknown.rank() < BuildState::DocsOnly.rank());
}

#[test]
fn a_profile_is_found_by_the_gear_it_describes() {
    let map = profiles_by_gear(vec![
        json(r#"{ "gear_name": "cf-gears-api-gateway", "auto": { "gdl_runs": { "s": "good" } } }"#),
        json(r#"{ "auto": {} }"#),
    ]);
    assert_eq!(map.len(), 1);
    let profile = &map.iter().find(|(k, _)| k == "cf-gears-api-gateway").unwrap().1;
    assert_eq!(
        profile.get("auto").and_then(|a| a.get("gdl_runs")).and_then(|r| r.get("s")),
        Some(&Json::Str("good".to_owned()))
    );
}

#[test]
fn a_later_profile_of_the_same_gear_replaces_the_earlier() {
    let map = profiles_by_gear(vec![
        json(r#"{ "gear_name": "b", "n": 1 }"#),
        json(r#"{ "gear_name": "a", "n": 2 }"#),
        json(r#"{ "gear_name": "b", "n": 3 }"#),
    ]);
    let keys: Vec<&str> = map.iter().map(|(k, _)| k.as_str()).collect();
    assert_eq!(keys, ["a", "b"]);
    assert_eq!(map[1].1.get("n"), Some(&Json::Number("3".to_owned())));
}
