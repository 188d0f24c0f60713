use std::collections::BTreeMap;

use studio_backend::components_catalog::gearbox::{
    answer_gdl, complete, compose, gdl_string, gear_facts, host_points, is_kebab_id, parse_diagnostics,
    parse_resolution, relabel, render_product_gdl, sdk_path_from_gear, Composition, EngineCatalogue, EngineConfigField, EngineConfigSchema, EngineDiagnostic,
    EngineEndpoint, EngineFills, EngineGear, EnginePackage, EnginePoint, GearKind, GearUse,
};
use studio_backend::json::Json;

fn package(crate_name: &str) -> EnginePackage {
    EnginePackage {
        crate_name: crate_name.to_string(),
        lib_ident: None,
        path: None,
    }
}

fn point(sdk: &str) -> EnginePoint {
    EnginePoint { sdk: package(sdk) }
}

fn gear(id: &str, crate_name: &str) -> EngineGear {
    EngineGear {
        id: id.to_string(),
        package: package(crate_name),
        fills: None,
        extension_points: Vec::new(),
        runtime_caps: Vec::new(),
        colocated_deps: Vec::new(),
        serves: Vec::new(),
        config_schema: None,
    }
}

fn host(id: &str, crate_name: &str, sdk: &str) -> EngineGear {
    let mut g = gear(id, crate_name);
    g.extension_points = vec![point(sdk)];
    g
}

fn plugin_of(id: &str, crate_name: &str, sdk: &str, prio: Option<i64>) -> EngineGear {
    let mut g = gear(id, crate_name);
    g.fills = Some(EngineFills {
        point: point(sdk),
        default_priority: prio,
    });
    g
}

fn strs(v: &[&str]) -> Vec<String> {
    v.iter().map(|s| (*s).to_string()).collect()
}

/// A catalogue keyed by engine id, in key order.
fn cat(gears: Vec<EngineGear>) -> EngineCatalogue {
    EngineCatalogue::from_entries(gears.into_iter().map(|g| (g.id.clone(), g)).collect())
}

/// The corpus shape that matters: a host with an extension point, two
/// plugins filling it, and a gear that is neither.
fn catalogue() -> EngineCatalogue {
    cat(vec![
        gear("api-gateway", "cf-gears-api-gateway"),
        host("authn-resolver", "cf-gears-authn-resolver", "cf-gears-authn-resolver-sdk"),
        plugin_of("static-authn-plugin", "cf-gears-static-authn-plugin", "cf-gears-authn-resolver-sdk", None),
        plugin_of("oidc-authn-plugin", "cf-gears-oidc-authn-plugin", "cf-gears-authn-resolver-sdk", None),
        plugin_of("credstore", "cf-gears-credstore", "cf-gears-credstore-sdk", None),
    ])
}

fn names(v: &[&str]) -> Vec<String> {
    strs(v)
}

/// The shape of the real corpus, cut down to what completion reasons about.
fn corpus() -> EngineCatalogue {
    let plugin = |id: &str, sdk: &str, prio: i64, deps: &[&str]| {
        let mut g = plugin_of(id, &format!("cf-gears-{id}"), sdk, Some(prio));
        g.colocated_deps = strs(deps);
        g
    };
    let mut types_registry = gear("types-registry", "cf-gears-types-registry");
    types_registry.runtime_caps = strs(&["db", "rest", "system"]);
    let mut authn = host("authn-resolver", "cf-gears-authn-resolver", "authn-sdk");
    authn.colocated_deps = strs(&["types-registry"]);
    let mut authz = host("authz-resolver", "cf-gears-authz-resolver", "authz-sdk");
    authz.runtime_caps = strs(&["rest"]);
    let mut rg = gear("resource-group", "cf-gears-resource-group");
    rg.colocated_deps = strs(&["authz-resolver"]);
    rg.runtime_caps = strs(&["rest"]);
    let tenant = host("tenant-resolver", "cf-gears-tenant-resolver", "tr-sdk");
    let mut gateway = gear("api-gateway", "cf-gears-api-gateway");
    gateway.runtime_caps = strs(&["rest", "rest_host"]);
    gateway.colocated_deps = strs(&["authn-resolver"]);
    gateway.serves = vec![EngineEndpoint {
        config_key: Some("bind_addr".to_string()),
    }];
    gateway.config_schema = Some(EngineConfigSchema {
        fields: vec![EngineConfigField {
            name: "bind_addr".to_string(),
            required: true,
            default: None,
        }],
    });
    let mut broker = gear("event-broker", "cf-gears-event-broker");
    broker.config_schema = Some(EngineConfigSchema {
        fields: vec![
            EngineConfigField {
                name: "mode".to_string(),
                required: true,
                default: Some(Json::Null),
            },
            EngineConfigField {
                name: "retention".to_string(),
                required: true,
                default: Some(Json::Str("7d".to_string())),
            },
            EngineConfigField {
                name: "tuning".to_string(),
                required: false,
                default: None,
            },
        ],
    });
    cat(vec![
        types_registry,
        authn,
        plugin("oidc-authn-plugin", "authn-sdk", 100, &["authn-resolver"]),
        plugin("static-authn-plugin", "authn-sdk", 100, &["types-registry"]),
        authz,
        rg,
        tenant,
        plugin("static-tr-plugin", "tr-sdk", 100, &[]),
        plugin("single-tenant-tr-plugin", "tr-sdk", 1000, &[]),
        plugin("rg-tr-plugin", "tr-sdk", 50, &["resource-group"]),
        plugin("account-management", "idp-sdk", 100, &[]),
        gateway,
        broker,
    ])
}

#[test]
fn crate_names_and_engine_ids_both_select_a_gear() {
    let c = compose(
        &catalogue(),
        &names(&["cf-gears-api-gateway", "authn-resolver"]),
    );
    let ids: Vec<&str> = c.gears.iter().map(|g| g.id.as_str()).collect();
    assert_eq!(ids, ["api-gateway", "authn-resolver"]);
    assert!(c.not_described.is_empty());
}

#[test]
fn a_plugin_goes_under_its_host_and_brings_the_host_when_missing() {
    let c = compose(&catalogue(), &names(&["cf-gears-static-authn-plugin"]));
    assert_eq!(
        c.gears,
        vec![GearUse {
            id: "authn-resolver".into(),
            plugins: vec!["static-authn-plugin".into()],
        }]
    );
    assert_eq!(
        c.added_hosts,
        vec![(
            "authn-resolver".to_string(),
            "static-authn-plugin".to_string()
        )]
    );
}

#[test]
fn a_picked_host_is_not_reported_as_added() {
    let c = compose(
        &catalogue(),
        &names(&[
            "cf-gears-oidc-authn-plugin",
            "cf-gears-authn-resolver",
            "static-authn-plugin",
        ]),
    );
    assert_eq!(c.gears.len(), 1);
    assert_eq!(
        c.gears[0].plugins,
        ["oidc-authn-plugin", "static-authn-plugin"]
    );
    assert!(c.added_hosts.is_empty());
}

#[test]
fn completion_drops_what_cannot_run_and_adds_what_is_missing() {
    let c = complete(
        &corpus(),
        &names(&[
            "cf-gears-types-registry",
            "cf-gears-resource-group",
            "cf-gears-event-broker",
            "cf-gears-account-management",
            "cf-gears-tenant-resolver",
            "cf-gears-ledger",
        ]),
    );
    assert_eq!(
        c.gears,
        [
            "cf-gears-types-registry",
            "cf-gears-tenant-resolver",
            "cf-gears-static-tr-plugin",
            "cf-gears-api-gateway",
            "cf-gears-static-authn-plugin",
        ]
    );
    let why: BTreeMap<&str, (bool, &str)> = c
        .changes
        .iter()
        .map(|ch| (ch.gear.as_str(), (ch.added, ch.reason.as_str())))
        .collect();
    assert!(!why["cf-gears-ledger"].0);
    assert!(
        why["cf-gears-resource-group"]
            .1
            .contains("cf-gears-authz-resolver")
    );
    assert!(why["cf-gears-event-broker"].1.contains("mode"));
    assert!(
        !why["cf-gears-event-broker"].1.contains("retention"),
        "a default is not a missing field"
    );
    assert!(
        why["cf-gears-account-management"]
            .1
            .contains("no gear in the corpus hosts")
    );
    assert!(why["cf-gears-static-tr-plugin"].0);
    assert!(why["cf-gears-api-gateway"].1.contains("REST host"));
}

#[test]
fn a_complete_set_is_left_as_it_is() {
    let picks = names(&[
        "cf-gears-api-gateway",
        "cf-gears-authn-resolver",
        "cf-gears-oidc-authn-plugin",
    ]);
    let c = complete(&corpus(), &picks);
    assert_eq!(c.gears, picks);
    assert!(c.changes.is_empty());
}

#[test]
fn a_host_picked_without_a_plugin_is_offered_the_ones_that_fill_it() {
    let c = compose(
        &catalogue(),
        &names(&["cf-gears-authn-resolver", "api-gateway"]),
    );
    assert_eq!(
        c.plugin_options,
        vec![(
            "authn-resolver".to_string(),
            vec![
                "cf-gears-oidc-authn-plugin".to_string(),
                "cf-gears-static-authn-plugin".to_string()
            ]
        )]
    );
    let filled = compose(
        &catalogue(),
        &names(&["authn-resolver", "static-authn-plugin"]),
    );
    assert!(filled.plugin_options.is_empty());
}

#[test]
fn a_plugin_with_no_host_in_the_corpus_is_left_for_the_engine_to_judge() {
    let c = compose(&catalogue(), &names(&["cf-gears-credstore"]));
    assert_eq!(c.gears[0].id, "credstore");
    assert!(c.gears[0].plugins.is_empty());
}

#[test]
fn a_gear_without_a_descriptor_is_reported_once_and_not_written() {
    let c = compose(
        &catalogue(),
        &names(&["cf-gears-ledger", "cf-gears-ledger", " "]),
    );
    assert!(c.gears.is_empty());
    assert_eq!(c.not_described, ["cf-gears-ledger"]);
}

#[test]
fn the_dead_gears_say_why() {
    let dead = corpus().dead();
    let ids: Vec<&str> = dead.iter().map(|(id, _)| id.as_str()).collect();
    assert_eq!(
        ids,
        [
            "account-management",
            "event-broker",
            "authz-resolver",
            "resource-group",
            "rg-tr-plugin"
        ]
    );
}

#[test]
fn kebab_ids() {
    for ok in ["a", "my-shop", "shop2", "a-b-c"] {
        assert!(is_kebab_id(ok), "{ok}");
    }
    for bad in ["", "My-shop", "2shop", "shop-", "a--b", "a_b", "-a"] {
        assert!(!is_kebab_id(bad), "{bad}");
    }
}

#[test]
fn the_sdk_path_climbs_out_of_the_new_gear_into_the_corpus_checkout() {
    assert_eq!(
        sdk_path_from_gear("gears", "gears/system/x-sdk"),
        "../../../gears-rust/gears/system/x-sdk"
    );
    assert_eq!(
        sdk_path_from_gear("/gears/bss/", "/gears/x-sdk"),
        "../../../../gears-rust/gears/x-sdk"
    );
    assert_eq!(sdk_path_from_gear("", "x-sdk"), "../../gears-rust/x-sdk");
}

#[test]
fn an_unknown_gear_kind_is_refused_and_blank_means_service() {
    assert_eq!(GearKind::parse(""), Some(GearKind::Service));
    assert_eq!(GearKind::parse(" plugin "), Some(GearKind::Plugin));
    assert_eq!(GearKind::parse("library"), None);
    assert_eq!(GearKind::parse("minimal").map(GearKind::as_str), Some("minimal"));
}

#[test]
fn the_description_names_every_profile_and_nests_plugins() {
    let c = compose(
        &catalogue(),
        &names(&["api-gateway", "static-authn-plugin"]),
    );
    let gdl = render_product_gdl("my-shop", "My \"Shop\"", &c, "local");
    assert!(gdl.contains("id = \"my-shop\""));
    assert!(gdl.contains("name = \"My \\\"Shop\\\"\""));
    assert!(gdl.contains("source(id = \"gears-rust\", at = path(\"../gears-rust\"))"));
    assert!(gdl.contains("embedded(id = \"dev\")"));
    assert!(gdl.contains("self_hosted(id = \"local\", host = \"my-shop\""));
    assert!(gdl.contains("kubernetes(id = \"prod\""));
    assert!(gdl.contains("default_profile = \"local\""));
    assert!(gdl.contains("use_gear(\"api-gateway\", source = \"gears-rust\"),"));
    assert!(gdl.contains(
        "use_gear(\"authn-resolver\", source = \"gears-rust\", plugins = [plugin(\"static-authn-plugin\")]),"
    ));
    assert!(gdl.starts_with("# The product this project ships, as Gearbox composes it.\n"));
    assert!(gdl.ends_with("    ],\n)\n"));
}

#[test]
fn several_plugins_are_listed_in_order() {
    let c = Composition {
        gears: vec![GearUse {
            id: "h".to_owned(),
            plugins: vec!["p1".to_owned(), "p2".to_owned()],
        }],
        added_hosts: vec![],
        not_described: vec![],
        plugin_options: vec![],
    };
    let gdl = render_product_gdl("x", "X", &c, "dev");
    assert!(gdl.contains("plugins = [plugin(\"p1\"), plugin(\"p2\")]),\n"));
}

#[test]
fn a_gdl_string_escapes_what_would_end_it_and_drops_control_characters() {
    assert_eq!(gdl_string("a\"b\\c\nd\te"), "\"a\\\"b\\\\c\\nde\"");
    assert_eq!(gdl_string(""), "\"\"");
}

fn diag(severity: &str, file: Option<&str>) -> EngineDiagnostic {
    EngineDiagnostic {
        code: "GBX0001".to_owned(),
        severity: severity.to_owned(),
        message: "m".to_owned(),
        help: None,
        file: file.map(str::to_owned),
        line: Some(3),
    }
}

#[test]
fn the_scratch_product_file_reads_as_the_repositorys_own() {
    let out = relabel(vec![
        diag("error", Some("tmp/my-shop/product.gdl")),
        diag("warning", Some("gears/x/gear.gdl")),
        diag("error", None),
    ]);
    assert_eq!(out[0].file.as_deref(), Some("product.gdl"));
    assert_eq!(out[1].file.as_deref(), Some("gears/x/gear.gdl"));
    assert_eq!(out[2].file, None);
    assert!(out[0].is_error());
    assert!(!out[1].is_error());
}

fn s(t: &str) -> Json {
    Json::Str(t.to_owned())
}

fn num(t: &str) -> Json {
    Json::Number(t.to_owned())
}

/// An object with its members in ascending key order, as `serde_json` keeps them.
fn obj(pairs: Vec<(&str, Json)>) -> Json {
    let mut members: Vec<(String, Json)> = pairs.into_iter().map(|(k, v)| (k.to_owned(), v)).collect();
    members.sort_by(|a, b| a.0.cmp(&b.0));
    Json::Object(members)
}

#[test]
fn facts_say_what_a_gear_is_in_a_composition_and_whether_it_can_run() {
    let f = gear_facts(&corpus(), "acme/gears@main (abc1234)");
    let member = |crate_name: &str| -> &Json {
        &f.iter().find(|(k, _)| k == crate_name).expect("a gear's facts").1
    };
    let get = |crate_name: &str, key: &str| -> String {
        member(crate_name)
            .get(key)
            .and_then(|field| field.get("v"))
            .and_then(|v| v.as_str())
            .unwrap_or_default()
            .to_string()
    };
    assert_eq!(get("cf-gears-api-gateway", "gdl"), "yes");
    assert_eq!(get("cf-gears-api-gateway", "gdl_id"), "api-gateway");
    assert_eq!(get("cf-gears-api-gateway", "gdl_caps"), "rest, rest_host");
    assert_eq!(get("cf-gears-api-gateway", "gdl_deps"), "cf-gears-authn-resolver");
    assert_eq!(get("cf-gears-api-gateway", "gdl_config"), "—");
    assert_eq!(get("cf-gears-api-gateway", "gdl_runs"), "yes");
    assert_eq!(get("cf-gears-api-gateway", "gdl_corpus"), "acme/gears@main (abc1234)");
    assert!(get("cf-gears-tenant-resolver", "gdl_role").starts_with("host; plugins: "));
    assert_eq!(get("cf-gears-static-tr-plugin", "gdl_role"), "plugin of cf-gears-tenant-resolver");
    assert!(get("cf-gears-authz-resolver", "gdl_role").contains("no plugin"));
    assert_eq!(get("cf-gears-event-broker", "gdl_config"), "mode");
    assert!(get("cf-gears-resource-group", "gdl_runs").contains("cf-gears-authz-resolver"));
    assert_eq!(
        member("cf-gears-resource-group").get("gdl_runs").and_then(|r| r.get("s")),
        Some(&s("bad"))
    );
}

#[test]
fn facts_are_keyed_by_crate_and_name_every_field() {
    let f = gear_facts(&corpus(), "c");
    let keys: Vec<&str> = f.iter().map(|(k, _)| k.as_str()).collect();
    let mut sorted = keys.clone();
    sorted.sort();
    assert_eq!(keys, sorted);
    assert_eq!(keys.len(), 13);
    let fields = f[0].1.clone_fields();
    assert_eq!(
        fields,
        ["gdl", "gdl_caps", "gdl_config", "gdl_corpus", "gdl_deps", "gdl_id", "gdl_role", "gdl_runs"]
    );
    let tenant = &f.iter().find(|(k, _)| k == "cf-gears-tenant-resolver").unwrap().1;
    assert_eq!(
        tenant.get("gdl_role").and_then(|r| r.get("b")),
        Some(&s("host; plugins: cf-gears-rg-tr-plugin, cf-gears-single-tenant-tr-plugin, cf-gears-static-tr-plugin"))
    );
    assert_eq!(tenant.get("gdl_deps").and_then(|r| r.get("v")), Some(&s("—")));
}

trait Fields {
    fn clone_fields(&self) -> Vec<String>;
}

impl Fields for Json {
    fn clone_fields(&self) -> Vec<String> {
        match self {
            Json::Object(m) => m.iter().map(|(k, _)| k.clone()).collect(),
            _ => Vec::new(),
        }
    }
}

#[test]
fn diagnostics_point_at_repository_paths_one_based() {
    let v = Json::Array(vec![
        obj(vec![
            ("code", s("GBX0513")),
            ("severity", s("error")),
            ("message", s("no host")),
            (
                "location",
                obj(vec![
                    ("uri", s("file:///tmp/x/my-shop/product.gdl")),
                    ("range", obj(vec![("start", obj(vec![("line", num("9")), ("character", num("0"))]))])),
                ]),
            ),
            ("help", s("select the host")),
        ]),
        obj(vec![
            ("code", s("GBX0108")),
            ("severity", s("warning")),
            ("message", s("category")),
            (
                "location",
                obj(vec![
                    ("uri", s("file:///tmp/x/gears-rust/gears/a/gear.gdl")),
                    ("range", obj(vec![("start", obj(vec![("line", num("0")), ("character", num("0"))]))])),
                ]),
            ),
        ]),
        obj(vec![("severity", s("error")), ("message", s("no code, dropped"))]),
    ]);
    let d = relabel(parse_diagnostics(&v, "/tmp/x/gears-rust"));
    assert_eq!(d.len(), 2);
    assert_eq!(d[0].file.as_deref(), Some("product.gdl"));
    assert_eq!(d[0].line, Some(10));
    assert!(d[0].is_error());
    assert_eq!(d[0].help.as_deref(), Some("select the host"));
    assert_eq!(d[1].file.as_deref(), Some("gears/a/gear.gdl"));
    assert!(!d[1].is_error());
}

#[test]
fn a_diagnostic_outside_the_corpus_keeps_only_its_file_name() {
    let v = Json::Array(vec![
        obj(vec![
            ("code", s("GBX1")),
            ("location", obj(vec![("uri", s("file:///elsewhere/dir/thing.gdl"))])),
        ]),
        obj(vec![("code", s("GBX2")), ("location", obj(vec![("uri", s("C:\\c\\gears\\x.gdl"))]))]),
    ]);
    let d = parse_diagnostics(&v, "C:\\c\\");
    assert_eq!(d[0].file.as_deref(), Some("thing.gdl"));
    assert_eq!(d[0].severity, "error");
    assert_eq!(d[0].message, "");
    assert_eq!(d[0].line, None);
    assert_eq!(d[1].file.as_deref(), Some("C:\\c\\gears\\x.gdl"));
    assert!(parse_diagnostics(&s("not a list"), "/c").is_empty());
}

#[test]
fn a_resolution_reads_as_applications_and_reasons() {
    let v = obj(vec![
        (
            "gears",
            obj(vec![
                (
                    "api-gateway",
                    obj(vec![
                        ("id", s("api-gateway")),
                        ("package", obj(vec![("crate_name", s("cf-gears-api-gateway"))])),
                        ("selected_by", Json::Array(vec![obj(vec![("reason", s("selected"))])])),
                    ]),
                ),
                (
                    "static-authn-plugin",
                    obj(vec![
                        ("id", s("static-authn-plugin")),
                        ("package", obj(vec![("crate_name", s("cf-gears-static-authn-plugin"))])),
                        (
                            "selected_by",
                            Json::Array(vec![obj(vec![
                                ("reason", s("plugin_of")),
                                ("host", s("authn-resolver")),
                                ("profile", s("dev")),
                            ])]),
                        ),
                    ]),
                ),
                (
                    "types-registry",
                    obj(vec![
                        ("id", s("types-registry")),
                        ("package", obj(vec![("crate_name", s("cf-gears-types-registry"))])),
                        (
                            "selected_by",
                            Json::Array(vec![obj(vec![("reason", s("colocated_by")), ("gear", s("authn-resolver"))])]),
                        ),
                    ]),
                ),
            ]),
        ),
        (
            "applications",
            Json::Array(vec![obj(vec![
                ("name", s("my-shop")),
                ("kind", s("host")),
                ("anchor", s("api-gateway")),
                ("gears", Json::Array(vec![s("types-registry"), s("api-gateway")])),
                ("replicas", num("2")),
                (
                    "listens",
                    Json::Array(vec![obj(vec![
                        ("name", s("rest")),
                        ("gear", s("api-gateway")),
                        ("address", s("127.0.0.1:8087")),
                    ])]),
                ),
            ])]),
        ),
        (
            "diagnostics",
            Json::Array(vec![obj(vec![("code", s("GBX0315")), ("severity", s("warning")), ("message", s("grpc"))])]),
        ),
    ]);
    let r = parse_resolution(&v, "/c");
    assert_eq!(r.applications.len(), 1);
    let app = &r.applications[0];
    assert_eq!((app.name.as_str(), app.anchor.as_deref(), app.replicas), ("my-shop", Some("api-gateway"), 2));
    assert_eq!(app.listens[0].address, "127.0.0.1:8087");
    let reasons: BTreeMap<_, _> = r.gears.iter().map(|g| (g.id.as_str(), g.reasons.clone())).collect();
    assert_eq!(reasons["api-gateway"], ["selected"]);
    assert_eq!(reasons["static-authn-plugin"], ["plugin of authn-resolver"]);
    assert_eq!(reasons["types-registry"], ["colocated with authn-resolver"]);
    assert_eq!(r.diagnostics[0].code, "GBX0315");
}

#[test]
fn a_bare_resolution_reads_with_its_defaults() {
    let v = obj(vec![
        ("applications", Json::Array(vec![obj(vec![("replicas", num("4294967296"))])])),
        (
            "gears",
            obj(vec![(
                "x",
                obj(vec![(
                    "selected_by",
                    Json::Array(vec![obj(vec![]), obj(vec![("reason", s("pulled_in_by_profile"))])]),
                )]),
            )]),
        ),
    ]);
    let r = parse_resolution(&v, "/c");
    let app = &r.applications[0];
    assert_eq!((app.name.as_str(), app.kind.as_str(), app.anchor.as_deref(), app.replicas), ("", "", None, 1));
    assert!(app.gears.is_empty() && app.listens.is_empty());
    assert_eq!(r.gears[0].id, "");
    assert_eq!(r.gears[0].crate_name, "");
    assert_eq!(r.gears[0].reasons, ["selected", "pulled in by profile"]);
    assert!(r.diagnostics.is_empty());
}

#[test]
fn a_host_is_offered_only_when_its_sdk_can_be_located() {
    let mut authn = gear("authn-resolver", "cf-gears-authn-resolver");
    authn.extension_points = vec![EnginePoint {
        sdk: EnginePackage {
            crate_name: "cf-gears-authn-resolver-sdk".to_string(),
            lib_ident: Some("authn_resolver_sdk".to_string()),
            path: Some("gears/system/authn-resolver/authn-resolver-sdk".to_string()),
        },
    }];
    let credstore = host("credstore", "cf-gears-credstore", "cf-gears-credstore-sdk");
    let c = cat(vec![authn, credstore]);
    let points = host_points(&c);
    assert_eq!(points.len(), 1, "{points:?}");
    assert_eq!(points[0].host_crate, "cf-gears-authn-resolver");
    assert_eq!(points[0].sdk_lib, "authn_resolver_sdk");
}

#[test]
fn hosts_that_can_run_are_offered_first() {
    let located = |id: &str, sdk: &str| {
        let mut g = gear(id, &format!("cf-gears-{id}"));
        g.extension_points = vec![EnginePoint {
            sdk: EnginePackage {
                crate_name: sdk.to_string(),
                lib_ident: Some(sdk.replace('-', "_")),
                path: Some(format!("gears/{sdk}")),
            },
        }];
        g
    };
    let c = cat(vec![
        located("a-host", "a-sdk"),
        located("b-host", "b-sdk"),
        plugin_of("b-plugin", "cf-gears-b-plugin", "b-sdk", None),
    ]);
    let points = host_points(&c);
    let order: Vec<(&str, bool)> = points.iter().map(|p| (p.host_crate.as_str(), p.runs)).collect();
    assert_eq!(order, [("cf-gears-b-host", true), ("cf-gears-a-host", false)]);
}

#[test]
fn a_scaffold_answer_yields_its_gdl_or_the_engines_refusal() {
    let ok = obj(vec![
        ("id", num("2")),
        ("result", obj(vec![("gear_gdl", s("gear x {}\n")), ("plans", Json::Array(vec![]))])),
    ]);
    assert_eq!(answer_gdl(&ok).expect("gdl"), "gear x {}\n");
    let refused = obj(vec![
        ("id", num("2")),
        ("error", obj(vec![("code", num("-32602")), ("message", s("id is not kebab-case"))])),
    ]);
    let e = answer_gdl(&refused).expect_err("refused");
    assert!(e.contains("id is not kebab-case"), "{e}");
    assert!(answer_gdl(&obj(vec![("id", num("2")), ("result", obj(vec![]))])).is_err());
}

#[test]
fn a_catalogue_keeps_its_keys_ascending_and_a_later_entry_wins() {
    let c = EngineCatalogue::from_entries(vec![
        ("b".to_owned(), gear("b", "cf-gears-b")),
        ("a".to_owned(), gear("a", "cf-gears-a")),
        ("b".to_owned(), gear("b", "cf-gears-b2")),
    ]);
    let keys: Vec<&str> = c.gears.iter().map(|(k, _)| k.as_str()).collect();
    assert_eq!(keys, vec!["a", "b"]);
    assert_eq!(c.gears[1].1.package.crate_name, "cf-gears-b2");
}
