use studio_backend::components_catalog::gearbox::{
    EngineApplication, EngineDiagnostic, EngineResolvedGear, Resolution,
};
use sha2::Digest;
use studio_backend::components_catalog::product::{preview_plan, preview_plan_with_digest, preview_record};
use studio_backend::components_catalog::scaffold::ScaffoldWrite;
use studio_backend::json::Json;

fn gears() -> Vec<String> {
    vec!["api-gateway".to_owned()]
}

const DIGEST: [u8; 6] = [0xde, 0xad, 0x0b, 0x07, 0xff, 0xff];

#[test]
fn a_preview_needs_a_gear() {
    assert_eq!(
        preview_plan_with_digest("shop", &[], None, None, false, false, false, &DIGEST),
        Err("pick at least one gear".to_owned())
    );
}

#[test]
fn the_name_falls_back_to_the_id_and_the_profile_to_dev() {
    let p = preview_plan_with_digest("shop", &gears(), Some("   "), None, false, false, false, &DIGEST).unwrap();
    assert_eq!(p.name, "shop");
    assert_eq!(p.profile, "dev");
    assert!(p.write.is_none());
    let p = preview_plan_with_digest("shop", &gears(), Some(" The Shop "), Some("prod"), false, false, false, &DIGEST).unwrap();
    assert_eq!(p.name, "The Shop");
    assert_eq!(p.profile, "prod");
}

#[test]
fn a_saved_description_goes_on_a_branch_named_after_its_content() {
    let p = preview_plan_with_digest("shop", &gears(), None, None, true, false, false, &DIGEST).unwrap();
    let w = p.write.unwrap();
    assert_eq!(w.branch.as_deref(), Some("product/shop-dead0b07"));
    assert_eq!(w.pr_title, None);
    assert_eq!(w.message, "product: describe shop for Gearbox");
    assert_eq!(w.path, "product.gdl");
    let again = preview_plan_with_digest("shop", &gears(), None, None, true, false, false, &DIGEST).unwrap();
    assert_eq!(again.write.unwrap().branch.as_deref(), Some("product/shop-dead0b07"));
}

#[test]
fn onto_base_writes_the_base_branch_unless_a_pull_request_is_asked_for() {
    let p = preview_plan_with_digest("shop", &gears(), None, None, true, true, false, &DIGEST).unwrap();
    assert_eq!(p.write.unwrap().branch, None);
    let p = preview_plan_with_digest("shop", &gears(), None, None, true, true, true, &DIGEST).unwrap();
    let w = p.write.unwrap();
    assert_eq!(w.branch.as_deref(), Some("product/shop-dead0b07"));
    assert_eq!(w.pr_title.as_deref(), Some("Describe the shop product"));
}

fn diag(severity: &str) -> EngineDiagnostic {
    EngineDiagnostic {
        code: "E1".to_owned(),
        severity: severity.to_owned(),
        message: "m".to_owned(),
        help: None,
        file: None,
        line: None,
    }
}

#[test]
fn the_record_keeps_the_request_the_verdict_and_where_it_was_saved() {
    let r = Resolution {
        applications: vec![EngineApplication {
            name: "main".to_owned(),
            kind: "service".to_owned(),
            anchor: None,
            gears: vec![],
            replicas: 1,
            listens: vec![],
        }],
        gears: vec![EngineResolvedGear {
            id: "api-gateway".to_owned(),
            crate_name: "cf-gears-api-gateway".to_owned(),
            reasons: vec![],
        }],
        diagnostics: vec![diag("warning"), diag("error"), diag("warning")],
    };
    let w = ScaffoldWrite {
        branch: "product/shop-dead0b07".to_owned(),
        commit_sha: "abc".to_owned(),
        pr_url: None,
    };
    let rec = preview_record("shop", "Shop", &gears(), Json::Null, "dev", &r, Some("c0ffee"), Some(&w));
    let lp = rec.get("last_preview").unwrap();
    assert_eq!(lp.get("ok"), Some(&Json::Bool(false)));
    assert_eq!(lp.get("errors").and_then(|j| j.as_u64()), Some(1));
    assert_eq!(lp.get("warnings").and_then(|j| j.as_u64()), Some(2));
    assert_eq!(lp.get("corpus_commit").and_then(|j| j.as_str()), Some("c0ffee"));
    assert_eq!(lp.get("profile").and_then(|j| j.as_str()), Some("dev"));
    assert_eq!(rec.get("name").and_then(|j| j.as_str()), Some("Shop"));
    assert_eq!(rec.get("product_id").and_then(|j| j.as_str()), Some("shop"));
    let written = rec.get("written").unwrap();
    assert_eq!(written.get("branch").and_then(|j| j.as_str()), Some("product/shop-dead0b07"));
    assert_eq!(written.get("pr_url"), Some(&Json::Null));
    let clean = Resolution { applications: vec![], gears: vec![], diagnostics: vec![diag("warning")] };
    let rec = preview_record("shop", "Shop", &gears(), Json::Null, "dev", &clean, None, None);
    assert_eq!(rec.get("last_preview").unwrap().get("ok"), Some(&Json::Bool(true)));
    assert!(rec.get("written").is_none());
}

#[test]
fn the_branch_is_named_after_the_sha256_of_the_description() {
    let gdl = "product shop {\n  gears = [api-gateway]\n}\n";
    let hash = sha2::Sha256::digest(gdl.as_bytes());
    let hex: String = hash.iter().take(4).map(|b| format!("{b:02x}")).collect();
    let p = preview_plan("shop", &gears(), None, None, true, false, false, gdl).unwrap();
    assert_eq!(p.write.unwrap().branch, Some(format!("product/shop-{hex}")));
    let again = preview_plan("shop", &gears(), None, None, true, false, false, gdl).unwrap();
    assert_eq!(again.write.unwrap().branch, Some(format!("product/shop-{hex}")));
    let other = preview_plan("shop", &gears(), None, None, true, false, false, "product shop {}\n").unwrap();
    assert_ne!(other.write.unwrap().branch, Some(format!("product/shop-{hex}")));
}
