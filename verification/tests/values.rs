use studio_backend::components_catalog::values::{
    category_of, from_crate, newer_first, resolve, short_repo, to_field_val, urlencoding_component,
    LEGACY_KEYS,
};
use studio_backend::json::Json;

fn s(t: &str) -> Json {
    Json::Str(t.to_owned())
}

fn num(t: &str) -> Json {
    Json::Number(t.to_owned())
}

fn arr(items: Vec<Json>) -> Json {
    Json::Array(items)
}

/// An object with its members in ascending key order, as `serde_json` keeps them.
fn obj(pairs: Vec<(&str, Json)>) -> Json {
    let mut members: Vec<(String, Json)> = pairs.into_iter().map(|(k, v)| (k.to_owned(), v)).collect();
    members.sort_by(|a, b| a.0.cmp(&b.0));
    Json::Object(members)
}

fn crate_node(mut extra: Vec<(&str, Json)>) -> Json {
    extra.push(("name", s("cf-gears-api-gateway")));
    obj(extra)
}

fn member<'a>(values: &'a [(String, Json)], key: &str) -> Option<&'a Json> {
    values.iter().find(|(k, _)| k == key).map(|(_, v)| v)
}

fn badge(values: &[(String, Json)], key: &str) -> Option<String> {
    member(values, key)?.get("b").and_then(|b| b.as_str()).map(str::to_owned)
}


#[test]
fn every_legacy_key_maps_to_a_field_and_none_maps_twice_to_a_different_one() {
    for (flat, key) in LEGACY_KEYS {
        assert!(!flat.is_empty() && !key.is_empty());
    }
    let mut seen: Vec<(&str, &str)> = LEGACY_KEYS.to_vec();
    seen.sort_unstable();
    seen.dedup();
    assert_eq!(seen.len(), LEGACY_KEYS.len(), "a flat key is listed twice");
}

fn ordered(mut versions: Vec<&str>) -> Vec<&str> {
    versions.sort_by(|a, b| newer_first(a, b));
    versions
}

#[test]
fn the_newest_version_comes_first() {
    assert_eq!(
        ordered(vec!["0.9.0", "1.2.0", "1.10.0", "1.2.1"]),
        vec!["1.10.0", "1.2.1", "1.2.0", "0.9.0"],
        "ten is after two, not before it"
    );
}

#[test]
fn a_prerelease_sorts_below_the_release_it_precedes() {
    assert_eq!(
        ordered(vec!["1.2.0-rc1", "1.3.0"]),
        vec!["1.3.0", "1.2.0-rc1"]
    );
}

#[test]
fn a_version_nobody_can_parse_does_not_scramble_the_list_around_it() {
    let out = ordered(vec!["2.0.0", "nightly", "1.0.0"]);
    assert_eq!(out[0], "2.0.0");
    assert_eq!(out[1], "1.0.0");
    assert_eq!(out[2], "nightly");
}

#[test]
fn a_shorter_version_is_not_newer_for_being_shorter() {
    assert_eq!(ordered(vec!["1.2", "1.2.1"]), vec!["1.2.1", "1.2"]);
    assert_eq!(newer_first("1.2.0", "1.2"), std::cmp::Ordering::Equal);
}

#[test]
fn comparing_the_other_way_round_reverses_the_answer() {
    assert_eq!(newer_first("2.0.0", "1.9.9"), std::cmp::Ordering::Less);
    assert_eq!(newer_first("1.9.9", "2.0.0"), std::cmp::Ordering::Greater);
    assert_eq!(newer_first("1.0.0+build", "1.0.0"), std::cmp::Ordering::Equal);
    assert_eq!(newer_first("v1", "0"), std::cmp::Ordering::Equal);
    assert_eq!(newer_first("1.18446744073709551616", "1.0"), std::cmp::Ordering::Equal);
}

#[test]
fn a_repository_url_is_shown_without_its_scheme() {
    assert_eq!(short_repo("https://github.com/owner/name/"), "github.com/owner/name");
    assert_eq!(short_repo("http://www.example.org/x"), "example.org/x");
    assert_eq!(short_repo("github.com/a/b"), "github.com/a/b");
}

#[test]
fn only_what_a_path_cannot_carry_is_percent_encoded() {
    assert_eq!(urlencoding_component("cf-gears_x.1~"), "cf-gears_x.1~");
    assert_eq!(urlencoding_component("a b/c"), "a%20b%2Fc");
    assert_eq!(urlencoding_component("é"), "%C3%A9");
}

#[test]
fn the_stable_version_wins_over_whatever_merely_exists() {
    let node = crate_node(vec![
        ("max_stable_version", s("1.2.0")),
        ("newest_version", s("1.3.0-rc1")),
        ("max_version", s("1.3.0-rc1")),
    ]);
    assert_eq!(badge(&from_crate(&node), "version").as_deref(), Some("1.2.0"));
}

#[test]
fn a_crate_with_only_a_prerelease_still_says_which_one() {
    let node = crate_node(vec![("max_version", s("0.1.0-alpha"))]);
    assert_eq!(badge(&from_crate(&node), "version").as_deref(), Some("0.1.0-alpha"));
}

#[test]
fn a_repository_is_shown_without_its_scheme_and_kept_whole_as_the_link() {
    let node = crate_node(vec![("repository", s("https://www.github.com/cf/gears-rust/"))]);
    let values = from_crate(&node);
    assert_eq!(badge(&values, "path").as_deref(), Some("github.com/cf/gears-rust"));
    assert_eq!(
        member(&values, "path").unwrap().get("l").and_then(|l| l.as_str()),
        Some("https://www.github.com/cf/gears-rust/"),
        "the link keeps the address that works"
    );
}

#[test]
fn categories_are_preferred_to_keywords() {
    let node = crate_node(vec![
        ("categories", arr(vec![s("gateway")])),
        ("keywords", arr(vec![s("http"), s("proxy")])),
    ]);
    assert_eq!(badge(&from_crate(&node), "category").as_deref(), Some("gateway"));

    let no_categories = crate_node(vec![("keywords", arr(vec![s("http"), s("proxy")]))]);
    let values = from_crate(&no_categories);
    assert_eq!(badge(&values, "category").as_deref(), Some("http"));
    assert_eq!(
        member(&values, "category").unwrap().get("v").and_then(|v| v.as_str()),
        Some("http, proxy")
    );
}

#[test]
fn a_crate_that_answers_nothing_produces_nothing() {
    assert!(from_crate(&obj(vec![("name", s("x"))])).is_empty());
}

#[test]
fn a_persons_answer_beats_the_scan_which_beats_the_registry() {
    let node = crate_node(vec![("description", s("from crates.io"))]);
    let profile = obj(vec![
        ("auto", obj(vec![("description", s("from the checkout"))])),
        ("values", obj(vec![("description", s("what somebody wrote"))])),
    ]);
    let values = resolve(&node, Some(&profile));
    assert_eq!(badge(&values, "description").as_deref(), Some("what somebody wrote"));

    let scan_only = obj(vec![("auto", obj(vec![("description", s("from the checkout"))]))]);
    assert_eq!(
        badge(&resolve(&node, Some(&scan_only)), "description").as_deref(),
        Some("from the checkout")
    );
    assert_eq!(badge(&resolve(&node, None), "description").as_deref(), Some("from crates.io"));
}

#[test]
fn clearing_a_field_is_a_decision_and_does_not_fall_back() {
    let node = crate_node(vec![("description", s("from crates.io"))]);
    let profile = obj(vec![
        ("auto", obj(vec![("description", s("from the checkout"))])),
        ("values", obj(vec![("description", s(""))])),
    ]);
    let values = resolve(&node, Some(&profile));
    assert_eq!(member(&values, "description"), Some(&Json::Null));
}

#[test]
fn a_legacy_key_fills_only_what_is_still_unanswered() {
    let node = crate_node(vec![]);
    let answered = obj(vec![
        ("values", obj(vec![("category", s("gateways"))])),
        ("domain", s("old-flat")),
    ]);
    assert_eq!(badge(&resolve(&node, Some(&answered)), "category").as_deref(), Some("gateways"));

    let unanswered = obj(vec![("domain", s("old-flat"))]);
    assert_eq!(badge(&resolve(&node, Some(&unanswered)), "category").as_deref(), Some("old-flat"));
}

#[test]
fn the_rich_shape_is_passed_through_untouched() {
    let rich = obj(vec![("v", s("92%")), ("b", s("92%")), ("n", num("92")), ("s", s("good"))]);
    let same = obj(vec![("v", s("92%")), ("b", s("92%")), ("n", num("92")), ("s", s("good"))]);
    assert_eq!(to_field_val(&rich), Some(same));
}

#[test]
fn a_bare_value_becomes_one_and_a_number_keeps_something_to_sort_on() {
    assert_eq!(to_field_val(&s("MIT")), Some(obj(vec![("v", s("MIT")), ("b", s("MIT"))])));
    let number = to_field_val(&num("1284")).expect("a number answers");
    assert_eq!(number.get("n"), Some(&num("1284")));
}

#[test]
fn a_list_is_joined_and_says_how_many_it_was() {
    let out = to_field_val(&arr(vec![s("postgres"), s("sqlite")])).expect("a list answers");
    assert_eq!(out.get("b"), Some(&s("postgres, sqlite")));
    assert_eq!(out.get("n"), Some(&num("2")));
}

#[test]
fn nothing_is_nothing_rather_than_an_empty_answer() {
    for raw in [Json::Null, s(""), arr(vec![])] {
        assert_eq!(to_field_val(&raw), None, "{raw:?}");
    }
}

#[test]
fn an_object_nobody_recognises_is_shown_rather_than_dropped() {
    let odd = obj(vec![("shape", s("unknown"))]);
    let out = to_field_val(&odd).expect("shown");
    assert!(out.get("v").and_then(|v| v.as_str()).unwrap().contains("unknown"));
}

#[test]
fn the_category_is_looked_for_in_four_places_in_order() {
    let node = obj(vec![("category", s("on the node")), ("categories", arr(vec![s("published")]))]);
    let scanned = obj(vec![("auto", obj(vec![("category", obj(vec![("b", s("scanned"))]))]))]);
    let set = obj(vec![("values", obj(vec![("category", s("set by hand"))]))]);

    assert_eq!(category_of(&node, Some(&scanned)), "scanned");
    assert_eq!(category_of(&node, Some(&set)), "set by hand");
    assert_eq!(category_of(&node, None), "on the node");
    assert_eq!(category_of(&obj(vec![("categories", arr(vec![s("published")]))]), None), "published");
}

#[test]
fn a_component_nothing_can_file_says_nothing() {
    assert_eq!(category_of(&obj(vec![("name", s("x"))]), None), "");
    assert_eq!(category_of(&obj(vec![]), Some(&obj(vec![("auto", obj(vec![]))]))), "");
}

#[test]
fn the_published_line_names_the_crate_and_links_to_it() {
    let node = crate_node(vec![("newest_version", s("0.4.1")), ("updated_at", s("2024-05-06T07:08:09Z"))]);
    let values = from_crate(&node);
    let published = member(&values, "published").unwrap();
    assert_eq!(published.get("v"), Some(&s("On crates.io — cf-gears-api-gateway 0.4.1")));
    assert_eq!(published.get("s"), Some(&s("good")));
    assert_eq!(published.get("l"), Some(&s("https://crates.io/crates/cf-gears-api-gateway")));
    assert_eq!(member(&values, "lastrelease"), member(&values, "version"));
    assert_eq!(member(&values, "lastchange").unwrap().get("u"), Some(&s("2024-05-06")));
    let keys: Vec<&str> = values.iter().map(|(k, _)| k.as_str()).collect();
    assert_eq!(keys, vec!["lastchange", "lastrelease", "published", "version"]);
}

#[test]
fn a_version_without_a_name_has_no_link() {
    let node = obj(vec![("max_version", s("1.0.0")), ("license", s("MIT"))]);
    let values = from_crate(&node);
    assert_eq!(member(&values, "version").unwrap().get("l"), None);
    assert_eq!(badge(&values, "licence").as_deref(), Some("MIT"));
}

#[test]
fn a_list_item_that_is_not_text_is_written_as_json() {
    let out = to_field_val(&arr(vec![num("1"), s("a"), Json::Bool(true)])).expect("a list answers");
    assert_eq!(out.get("v"), Some(&s("1, a, true")));
    assert_eq!(out.get("n"), Some(&num("3")));
    let odd = to_field_val(&obj(vec![("shape", s("unknown"))])).unwrap();
    assert_eq!(odd.get("b"), Some(&s("{\"shape\":\"unknown\"}")));
    assert_eq!(to_field_val(&Json::Bool(false)), Some(obj(vec![("v", s("false")), ("b", s("false"))])));
}

#[test]
fn the_scan_and_a_person_add_fields_the_registry_never_had() {
    let node = crate_node(vec![]);
    let profile = obj(vec![
        ("auto", obj(vec![("coverage", num("81")), ("empty", s(""))])),
        ("values", obj(vec![("owner", s("team-a"))])),
        ("lifecycle_status", s("beta")),
    ]);
    let values = resolve(&node, Some(&profile));
    let keys: Vec<&str> = values.iter().map(|(k, _)| k.as_str()).collect();
    assert_eq!(keys, vec!["coverage", "lifecycle", "owner"]);
    assert_eq!(badge(&values, "lifecycle").as_deref(), Some("beta"));
}
