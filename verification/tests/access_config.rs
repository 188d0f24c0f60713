use studio_backend::access_config::{
    default_roles, owner_grant_update, AccessConfig, GrantDef, RoleDef, PRIVILEGES, ROLE_OWNER,
};
use studio_backend::json::Json;

/// One login, the way every caller looked before a person could have two.
fn one(subject: &str) -> Vec<String> {
    vec![subject.to_owned()]
}

fn grant_of(subject_type: &str, subject: &str, role: &str, scope: &str) -> GrantDef {
    GrantDef {
        subject_type: subject_type.to_string(),
        subject_id: subject.to_string(),
        role_key: role.to_string(),
        scope_type: scope.to_string(),
    }
}

fn grant(subject: &str, role: &str, scope: &str) -> GrantDef {
    grant_of("member", subject, role, scope)
}

fn config(model: &str, roles: Vec<RoleDef>, grants: Vec<GrantDef>) -> AccessConfig {
    AccessConfig {
        model: model.to_string(),
        roles,
        grants,
    }
}

/// The seeded ladder, read back out of the JSON it is written as.
fn ladder() -> Vec<RoleDef> {
    let roles = default_roles();
    roles
        .as_array()
        .expect("the ladder is an array")
        .iter()
        .map(|r| RoleDef {
            key: r.str_at("key").expect("a role has a key").to_string(),
            privileges: r
                .get("privileges")
                .and_then(Json::as_array)
                .expect("privileges is an array")
                .iter()
                .map(|p| p.as_str().expect("a privilege is a string").to_string())
                .collect(),
        })
        .collect()
}

fn roles_doc(grants: Vec<GrantDef>) -> AccessConfig {
    config("roles", ladder(), grants)
}

#[test]
fn an_org_scoped_owner_grant_is_ownership() {
    let cfg = config("", vec![], vec![grant("ada", "owner", "org")]);
    assert!(cfg.grants_ownership_to(&one("ada")));
    assert!(!cfg.grants_ownership_to(&one("bob")));
}

#[test]
fn a_grant_that_differs_in_any_field_is_not_ownership() {
    for g in [
        grant_of("team", "ada", "owner", "org"),
        grant_of("member", "ada", "admin", "org"),
        grant_of("member", "ada", "owner", "project"),
    ] {
        let cfg = config("", vec![], vec![g]);
        assert!(!cfg.grants_ownership_to(&one("ada")));
    }
}

#[test]
fn a_document_with_no_grants_denies() {
    assert!(!AccessConfig::default().grants_ownership_to(&one("ada")));
    assert!(!config("", vec![], vec![]).grants_ownership_to(&one("ada")));
}

#[test]
fn the_tenant_model_grants_no_privilege_however_the_roles_read() {
    let cfg = config("tenant", ladder(), vec![grant("ada", "admin", "org")]);
    assert!(!cfg.is_roles_model());
    assert!(!cfg.grants_ownership_to(&one("ada")));
}

#[test]
fn an_admin_on_the_roles_model_holds_people_manage_but_not_access_manage() {
    let cfg = roles_doc(vec![grant("ada", "admin", "org")]);
    assert!(cfg.is_roles_model());
    assert!(cfg.grants_privilege_to(&one("ada"), "people.manage"));
    assert!(cfg.grants_privilege_to(&one("ada"), "people.invite"));
    assert!(!cfg.grants_privilege_to(&one("ada"), "access.manage"));
}

#[test]
fn a_viewer_holds_reads_and_nothing_that_writes() {
    let cfg = roles_doc(vec![grant("ada", "viewer", "org")]);
    assert!(cfg.grants_privilege_to(&one("ada"), "people.view"));
    for privilege in ["people.manage", "people.invite", "access.manage"] {
        assert!(
            !cfg.grants_privilege_to(&one("ada"), privilege),
            "a viewer was allowed {privilege}"
        );
    }
}

#[test]
fn an_owner_holds_every_privilege_even_when_the_ladder_is_missing() {
    let cfg = config("roles", vec![], vec![grant("ada", "owner", "org")]);
    for privilege in PRIVILEGES {
        assert!(
            cfg.grants_privilege_to(&one("ada"), privilege),
            "an owner was denied {privilege} because the document omits the role"
        );
    }
}

#[test]
fn a_project_scoped_grant_does_not_administer_the_organization() {
    let cfg = roles_doc(vec![grant("ada", "admin", "project")]);
    assert!(!cfg.grants_privilege_to(&one("ada"), "people.manage"));
}

#[test]
fn a_member_with_no_grant_holds_nothing() {
    let cfg = roles_doc(vec![grant("bob", "admin", "org")]);
    assert!(!cfg.grants_privilege_to(&one("ada"), "people.manage"));
}

#[test]
fn an_owner_is_the_owner_whichever_way_they_signed_in() {
    let cfg = config("", vec![], vec![grant("ada-keycloak", "owner", "org")]);
    let both = vec!["ada-github".to_owned(), "ada-keycloak".to_owned()];
    assert!(cfg.grants_ownership_to(&both));
    assert!(!cfg.grants_ownership_to(&one("ada-github")));
    assert!(cfg.grants_ownership_to(&one("ada-keycloak")));
}

#[test]
fn another_persons_login_in_the_set_grants_nothing() {
    let cfg = config("", vec![], vec![grant("bob", "owner", "org")]);
    assert!(!cfg.grants_ownership_to(&["ada-github".to_owned(), "ada-keycloak".to_owned()]));
}

#[test]
fn a_privilege_follows_the_person_too() {
    let cfg = roles_doc(vec![grant("ada-keycloak", "admin", "org")]);
    let both = vec!["ada-github".to_owned(), "ada-keycloak".to_owned()];
    assert!(cfg.grants_privilege_to(&both, "people.manage"));
    assert!(!cfg.grants_privilege_to(&both, "access.manage"));
}

#[test]
fn the_seeded_ladder_defines_the_role_the_owner_grant_names() {
    let roles = default_roles();
    let keys: Vec<&str> = roles
        .as_array()
        .expect("the ladder is an array")
        .iter()
        .map(|r| r.str_at("key").expect("a role has a key"))
        .collect();
    assert!(keys.contains(&ROLE_OWNER));
    assert_eq!(keys, [ROLE_OWNER, "admin", "editor", "viewer"]);
}

#[test]
fn admin_holds_everything_except_redefining_access() {
    let roles = ladder();
    let privileges = |key: &str| -> Vec<String> {
        roles
            .iter()
            .find(|r| r.key == key)
            .expect("role present")
            .privileges
            .clone()
    };
    let owner = privileges(ROLE_OWNER);
    assert_eq!(owner.len(), PRIVILEGES.len());
    let admin = privileges("admin");
    assert!(!admin.contains(&"access.manage".to_owned()));
    assert!(admin.contains(&"people.manage".to_owned()));
    assert_eq!(admin.len(), PRIVILEGES.len() - 1);
    let viewer = privileges("viewer");
    assert!(viewer.iter().all(|p| p.ends_with(".view")));
    assert!(!viewer.is_empty());
}

#[test]
fn each_seeded_role_is_a_system_role_with_a_name() {
    let roles = default_roles();
    let names: Vec<&str> = roles
        .as_array()
        .unwrap()
        .iter()
        .map(|r| r.str_at("name").unwrap())
        .collect();
    assert_eq!(names, ["Owner", "Admin", "Editor", "Viewer"]);
    for r in roles.as_array().unwrap() {
        assert_eq!(r.get("system").and_then(Json::as_bool), Some(true));
    }
}

fn parsed(text: &str) -> Json {
    Json::parse(text).expect("test JSON parses")
}

fn owner_grants(config: &Json, subject: &str) -> usize {
    config
        .get("grants")
        .and_then(|g| g.as_array())
        .expect("grants")
        .iter()
        .filter(|g| {
            g.get("subjectType").and_then(|v| v.as_str()) == Some("member")
                && g.get("subjectId").and_then(|v| v.as_str()) == Some(subject)
                && g.get("scopeType").and_then(|v| v.as_str()) == Some("org")
                && g.get("roleKey").and_then(|v| v.as_str()) == Some("owner")
        })
        .count()
}

#[test]
fn a_fresh_organization_gets_the_ladder_and_one_owner_grant() {
    let out = owner_grant_update(None, "t-1", "Acme", "ada", true, "g-1").expect("granted");
    assert_eq!(out.get("roles"), Some(&default_roles()));
    assert_eq!(out.get("model").and_then(|m| m.as_str()), Some("tenant"));
    assert_eq!(owner_grants(&out, "ada"), 1);
    let grant = &out.get("grants").and_then(|g| g.as_array()).unwrap()[0];
    assert_eq!(grant.get("id").and_then(|v| v.as_str()), Some("g-1"));
    assert_eq!(grant.get("scopeId").and_then(|v| v.as_str()), Some("t-1"));
    assert_eq!(grant.get("scopeName").and_then(|v| v.as_str()), Some("Acme"));
    assert_eq!(grant.get("subjectName").and_then(|v| v.as_str()), Some("ada"));
}

#[test]
fn setting_the_owner_grant_twice_leaves_one_and_taking_it_away_leaves_none() {
    let start = parsed(r#"{"model": "roles", "roles": [{"key": "owner"}], "grants": [
        {"subjectType": "member", "subjectId": "bob", "roleKey": "owner", "scopeType": "org"},
        {"subjectType": "member", "subjectId": "ada", "roleKey": "viewer", "scopeType": "org"}
    ]}"#);
    let once = owner_grant_update(Some(start), "t", "T", "ada", true, "g").expect("granted");
    let twice = owner_grant_update(Some(once.copy()), "t", "T", "ada", true, "g").expect("granted");
    assert_eq!(once, twice);
    assert_eq!(owner_grants(&twice, "ada"), 1);
    assert_eq!(owner_grants(&twice, "bob"), 1, "another owner is untouched");
    assert_eq!(twice.get("roles"), Some(&parsed(r#"[{"key": "owner"}]"#)), "roles that exist are kept");

    let revoked = owner_grant_update(Some(twice), "t", "T", "ada", false, "g").expect("revoked");
    assert_eq!(owner_grants(&revoked, "ada"), 0);
    assert_eq!(revoked.get("grants").and_then(|g| g.as_array()).map(Vec::len), Some(2));
}

#[test]
fn an_empty_ladder_is_backfilled_and_a_broken_document_is_refused() {
    let empty_roles = parsed(r#"{"roles": []}"#);
    let out = owner_grant_update(Some(empty_roles), "t", "T", "ada", false, "g").expect("repaired");
    assert_eq!(out.get("roles"), Some(&default_roles()));
    assert_eq!(out.get("grants"), Some(&Json::Array(Vec::new())));

    assert_eq!(
        owner_grant_update(Some(parsed("[]")), "t", "T", "ada", true, "g"),
        Err("organization access config is not an object".to_string())
    );
    assert_eq!(
        owner_grant_update(Some(parsed(r#"{"grants": {}}"#)), "t", "T", "ada", true, "g"),
        Err("organization access grants are not an array".to_string())
    );
}
