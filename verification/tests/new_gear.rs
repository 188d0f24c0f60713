use studio_backend::components_catalog::gearbox::{GearKind, HostPoint};
use studio_backend::components_catalog::new_gear::{gear_scaffold, pick_extension_point};

fn point(host_id: &str, host_crate: &str, sdk: &str) -> HostPoint {
    HostPoint {
        host_id: host_id.to_owned(),
        host_crate: host_crate.to_owned(),
        sdk_crate: sdk.to_owned(),
        sdk_lib: "sdk_lib".to_owned(),
        sdk_path: "gears/authn/sdk".to_owned(),
        runs: true,
    }
}

fn points() -> Vec<HostPoint> {
    vec![
        point("authn-resolver", "cf-gears-authn-resolver", "cf-gears-authn-resolver-sdk"),
        point("types-registry", "cf-gears-types-registry", "tr-sdk"),
        point("types-registry", "cf-gears-types-registry", "tr-sdk-2"),
    ]
}

#[test]
fn a_host_is_found_by_crate_or_by_id() {
    let by_crate = pick_extension_point(&points(), "cf-gears-authn-resolver").unwrap();
    let by_id = pick_extension_point(&points(), "authn-resolver").unwrap();
    assert_eq!(by_crate, by_id);
    assert_eq!(by_id.sdk_crate, "cf-gears-authn-resolver-sdk");
}

#[test]
fn a_host_with_several_points_or_none_is_refused() {
    assert_eq!(
        pick_extension_point(&points(), "types-registry"),
        Err("`types-registry` declares several extension points; name one by its SDK: tr-sdk, tr-sdk-2".to_owned())
    );
    assert_eq!(
        pick_extension_point(&points(), "nobody"),
        Err("`nobody` has no such extension point the Gearbox engine knows of".to_owned())
    );
}

#[test]
fn a_service_is_scaffolded_as_cf_gears_and_its_title() {
    let g = gear_scaffold("", None, &points(), "gears", "Audit Log").unwrap();
    assert_eq!(g.crate_name, "cf-gears-audit-log");
    assert_eq!(g.name, "Audit Log");
    assert_eq!(g.kind, GearKind::Service);
    assert!(g.plugin.is_none());
}

#[test]
fn a_plugin_names_its_hosts_sdk_relative_to_the_new_gear() {
    let g = gear_scaffold("plugin", Some(" authn-resolver "), &points(), "gears", "okta").unwrap();
    assert_eq!(g.kind, GearKind::Plugin);
    let p = g.plugin.unwrap();
    assert_eq!(p.crate_name, "cf-gears-authn-resolver-sdk");
    assert_eq!(p.lib_ident, "sdk_lib");
    assert_eq!(p.path, "../../../gears-rust/gears/authn/sdk");
}

#[test]
fn a_bad_kind_or_a_plugin_without_a_host_is_refused() {
    assert_eq!(
        gear_scaffold("widget", None, &points(), "gears", "x").unwrap_err(),
        "gear kind `widget` is not one of minimal, service, plugin"
    );
    assert_eq!(
        gear_scaffold("plugin", Some("  "), &points(), "gears", "x").unwrap_err(),
        "a plugin needs `plugin_host`, the gear whose extension point it fills"
    );
}
