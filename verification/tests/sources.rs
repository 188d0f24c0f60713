use base64::Engine;
use studio_backend::git_proxy::sources::{
    presented_token, sources_in, upstream_authorization, upstream_url, valid_name, Service,
    ROOT_SOURCE,
};
use studio_backend::json::Json;

fn settings(text: &str) -> Json {
    Json::parse(text).expect("test settings are JSON")
}

#[test]
fn the_root_repository_comes_first_under_its_reserved_name() {
    let got = sources_in(&settings(
        r#"{
            "root_repo_url": "https://example.com/acme/root.git",
            "root_branch": "main",
            "root_token_ref": "root-token",
            "repos": [{ "name": "api", "source": "github", "url": "https://github.com/acme/api" }]
        }"#,
    ));
    assert_eq!(got.len(), 2);
    assert_eq!(got[0].name, ROOT_SOURCE);
    assert_eq!(got[0].branch.as_deref(), Some("main"));
    assert_eq!(got[0].token_ref.as_deref(), Some("root-token"));
    assert_eq!(got[1].name, "api");
}

#[test]
fn a_local_folder_is_not_a_git_source() {
    let got = sources_in(&settings(
        r#"{
            "repos": [
                { "name": "here", "source": "local", "path": "/srv/here" },
                { "name": "there", "source": "git", "url": "https://example.com/there.git" }
            ]
        }"#,
    ));
    assert_eq!(
        got.iter().map(|s| s.name.as_str()).collect::<Vec<_>>(),
        ["there"]
    );
}

#[test]
fn an_entry_studio_would_refuse_is_left_out() {
    let got = sources_in(&settings(
        r#"{
            "repos": [
                { "name": "Bad Name", "url": "https://example.com/a.git" },
                { "name": "nourl" },
                { "name": "dup", "url": "https://example.com/1.git" },
                { "name": "dup", "url": "https://example.com/2.git" }
            ]
        }"#,
    ));
    assert_eq!(got.len(), 1);
    assert_eq!(got[0].url, "https://example.com/1.git");
}

#[test]
fn settings_without_sources_have_none() {
    assert!(sources_in(&settings("{}")).is_empty());
    assert!(sources_in(&settings(r#"{ "repos": [], "root_repo_url": "  " }"#)).is_empty());
}

#[test]
fn the_protocol_path_is_appended_like_git_does() {
    assert_eq!(
        upstream_url("https://example.com/acme/api.git/", "info/refs").as_deref(),
        Some("https://example.com/acme/api.git/info/refs")
    );
}

#[test]
fn only_http_sources_are_proxied() {
    assert_eq!(
        upstream_url("git@github.com:acme/api.git", "info/refs"),
        None
    );
    assert_eq!(upstream_url("ssh://github.com/acme/api", "info/refs"), None);
    assert_eq!(upstream_url("file:///etc", "info/refs"), None);
}

#[test]
fn the_scheme_is_read_without_regard_to_case() {
    assert_eq!(
        upstream_url("  HTTP://Example.com/x// ", "git-upload-pack").as_deref(),
        Some("HTTP://Example.com/x/git-upload-pack")
    );
}

#[test]
fn the_token_is_the_basic_password() {
    let header = format!(
        "Basic {}",
        base64::engine::general_purpose::STANDARD.encode("studio:tok-123")
    );
    assert_eq!(presented_token(Some(&header)).as_deref(), Some("tok-123"));
}

#[test]
fn a_bearer_token_is_accepted_too() {
    assert_eq!(
        presented_token(Some("Bearer tok-456")).as_deref(),
        Some("tok-456")
    );
}

#[test]
fn no_or_empty_credentials_present_no_token() {
    assert_eq!(presented_token(None), None);
    assert_eq!(presented_token(Some("Bearer  ")), None);
    let empty = format!(
        "Basic {}",
        base64::engine::general_purpose::STANDARD.encode("studio:")
    );
    assert_eq!(presented_token(Some(&empty)), None);
    assert_eq!(presented_token(Some("Digest abc")), None);
    assert_eq!(presented_token(Some("Basic !!!")), None);
}

#[test]
fn the_upstream_credential_presents_the_token_it_was_made_from() {
    let header = upstream_authorization("tok:with:colons");
    assert_eq!(
        header,
        format!(
            "Basic {}",
            base64::engine::general_purpose::STANDARD.encode("oauth2:tok:with:colons")
        )
    );
    assert_eq!(presented_token(Some(&header)).as_deref(), Some("tok:with:colons"));
    assert_eq!(presented_token(Some(&upstream_authorization(""))), None);
}

#[test]
fn only_the_two_git_services_are_known() {
    assert_eq!(Service::parse("git-upload-pack"), Some(Service::UploadPack));
    assert_eq!(
        Service::parse("git-receive-pack"),
        Some(Service::ReceivePack)
    );
    assert_eq!(Service::parse("git-upload-archive"), None);
    assert_eq!(Service::UploadPack.as_str(), "git-upload-pack");
}

#[test]
fn source_names_are_lower_case_digits_dashes_and_underscores() {
    assert!(valid_name("api_2-x"));
    assert!(!valid_name(""));
    assert!(!valid_name("Api"));
    assert!(!valid_name("a b"));
}
