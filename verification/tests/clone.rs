use studio_backend::artifact_ingest::clone::{checkout_key, is_text_path};

#[test]
fn a_comment_log_is_read_as_text() {
    assert!(is_text_path(".studio/comments/docs/prd.md/oidc-sub-1.jsonl"));
    assert!(is_text_path(".studio/comments/docs/prd.md.json"));
}

#[test]
fn text_is_told_by_extension_or_by_a_well_known_name() {
    assert!(is_text_path("src/MAIN.RS"));
    assert!(is_text_path("Dockerfile"));
    assert!(is_text_path("docs/README"));
    assert!(!is_text_path("logo.png"));
    assert!(!is_text_path("bin/tool"));
    assert!(!is_text_path(".gitignore"));
    assert!(is_text_path("a/b.gitignore"));
}

#[test]
fn a_checkout_key_keeps_only_letters_and_digits() {
    assert_eq!(
        checkout_key("conn-1", "group/sub/repo.git"),
        "conn_1__group_sub_repo_git"
    );
}
