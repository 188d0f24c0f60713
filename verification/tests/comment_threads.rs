use studio_backend::artifact_ingest::comment_threads::{
    fold_repository, RepositoryThreads, ThreadCounts,
};

/// One op, as the IDE writes it.
fn op(at: &str, body: &str) -> String {
    format!(
        r#"{{"op":"open","thread":"t1","at":"{at}","by":{{"key":"oidc-a","name":"Ana"}},"body":"{body}"}}"#
    )
}

fn fold(files: &[(&str, &str)]) -> RepositoryThreads {
    fold_repository(files)
}

fn counts(files: &[(&str, &str)]) -> RepositoryThreads {
    fold(files)
}

/// An op with an author, for the cases about WHO rather than how many.
fn by(who: &str, kind: &str, at: &str, body: &str) -> String {
    format!(
        r#"{{"op":"{kind}","thread":"t1","at":"{at}","by":{{"id":"oidc:{who}","key":"oidc-{who}","name":"{who}"}},"body":"{body}"}}"#
    )
}

#[test]
fn a_document_with_no_sidecar_has_no_entry() {
    assert!(counts(&[("docs/prd.md", "# Brief")]).documents.is_empty());
}

#[test]
fn one_open_thread_is_one_open_thread() {
    let log = op("2026-09-17T10:00:00.000Z", "Why Q3?");
    let found = counts(&[(".studio/comments/docs/prd.md/oidc-a.jsonl", &log)]);
    assert_eq!(
        found.counts_for("docs/prd.md"),
        Some(ThreadCounts {
            open: 1,
            resolved: 0
        })
    );
}

#[test]
fn resolving_moves_a_thread_across_rather_than_dropping_it() {
    let log = format!(
        "{}\n{}",
        op("2026-09-17T10:00:00.000Z", "Why Q3?"),
        r#"{"op":"resolve","thread":"t1","at":"2026-09-17T11:00:00.000Z","by":{"key":"oidc-a"}}"#
    );
    let found = counts(&[(".studio/comments/docs/prd.md/oidc-a.jsonl", &log)]);
    assert_eq!(
        found.counts_for("docs/prd.md"),
        Some(ThreadCounts {
            open: 0,
            resolved: 1
        })
    );
}

#[test]
fn the_last_word_in_the_total_order_decides_resolution() {
    let a = format!(
        "{}\n{}",
        op("2026-09-17T10:00:00.000Z", "Why Q3?"),
        r#"{"op":"reopen","thread":"t1","at":"2026-09-17T12:00:00.000Z","by":{"key":"oidc-a"}}"#
    );
    let b = r#"{"op":"resolve","thread":"t1","at":"2026-09-17T11:00:00.000Z","by":{"key":"oidc-b"}}"#;
    let found = counts(&[
        (".studio/comments/docs/prd.md/oidc-a.jsonl", a.as_str()),
        (".studio/comments/docs/prd.md/oidc-b.jsonl", b),
    ]);
    assert_eq!(found.counts_for("docs/prd.md").map(|c| c.open), Some(1));
}

#[test]
fn a_reply_that_sorts_before_its_open_is_still_a_reply() {
    let a = op("2026-09-17T10:00:00.000Z", "Why Q3?");
    let b = r#"{"op":"reply","thread":"t1","at":"2026-09-17T10:00:00.000Z","by":{"key":"oidc-a2"},"body":"The audit."}"#;
    let found = counts(&[
        (".studio/comments/docs/prd.md/zz.jsonl", a.as_str()),
        (".studio/comments/docs/prd.md/aa.jsonl", b),
    ]);
    assert_eq!(found.counts_for("docs/prd.md").map(|c| c.open), Some(1));
}

#[test]
fn a_deleted_thread_is_gone_however_many_ops_follow_it() {
    let log = format!(
        "{}\n{}\n{}",
        op("2026-09-17T10:00:00.000Z", "Why Q3?"),
        r#"{"op":"delete","thread":"t1","at":"2026-09-17T11:00:00.000Z","by":{"key":"oidc-a"}}"#,
        r#"{"op":"reopen","thread":"t1","at":"2026-09-17T12:00:00.000Z","by":{"key":"oidc-a"}}"#
    );
    assert!(counts(&[(".studio/comments/docs/prd.md/oidc-a.jsonl", &log)])
        .documents
        .is_empty());
}

#[test]
fn a_thread_emptied_by_retractions_is_not_a_thread() {
    let log = format!(
        "{}\n{}",
        op("2026-09-17T10:00:00.000Z", "Why Q3?"),
        r#"{"op":"retract","thread":"t1","message":"t1-m0","at":"2026-09-17T11:00:00.000Z","by":{"key":"oidc-a"}}"#
    );
    assert!(counts(&[(".studio/comments/docs/prd.md/oidc-a.jsonl", &log)])
        .documents
        .is_empty());
}

#[test]
fn the_legacy_sidecar_is_the_base_layer_and_the_ops_land_on_top() {
    let legacy = r#"{"version":1,"threads":[
        {"id":"old","resolved":false,"messages":[{"id":"m1","body":"from before"}]}
    ]}"#;
    let log = r#"{"op":"resolve","thread":"old","at":"2026-09-17T11:00:00.000Z","by":{"key":"oidc-a"}}"#;
    let found = counts(&[
        (".studio/comments/docs/prd.md.json", legacy),
        (".studio/comments/docs/prd.md/oidc-a.jsonl", log),
    ]);
    assert_eq!(
        found.counts_for("docs/prd.md"),
        Some(ThreadCounts {
            open: 0,
            resolved: 1
        })
    );
}

#[test]
fn a_malformed_line_costs_one_line_and_not_the_document() {
    let log = format!(
        "{}\n{{ this is not json\n{}",
        op("2026-09-17T10:00:00.000Z", "Why Q3?"),
        r#"{"op":"open","thread":"t2","at":"2026-09-17T10:01:00.000Z","by":{"key":"oidc-a"},"body":"And this?"}"#
    );
    assert_eq!(
        counts(&[(".studio/comments/docs/prd.md/oidc-a.jsonl", &log)])
            .counts_for("docs/prd.md")
            .map(|c| c.open),
        Some(2)
    );
}

#[test]
fn each_document_is_counted_on_its_own() {
    let one = op("2026-09-17T10:00:00.000Z", "Why Q3?");
    let found = counts(&[
        (".studio/comments/docs/prd.md/oidc-a.jsonl", one.as_str()),
        (".studio/comments/README.md/oidc-a.jsonl", one.as_str()),
        (".studio/changes/docs/prd.md.json", "{}"),
    ]);
    assert_eq!(found.documents.len(), 2);
    assert!(found.counts_for("docs/prd.md").is_some());
    assert!(found.counts_for("README.md").is_some());
}

#[test]
fn a_document_called_data_json_keeps_its_name() {
    let one = op("2026-09-17T10:00:00.000Z", "Why?");
    let found = counts(&[
        (".studio/comments/data.json.json", r#"{"threads":[]}"#),
        (".studio/comments/data.json/oidc-a.jsonl", one.as_str()),
    ]);
    assert_eq!(found.counts_for("data.json").map(|c| c.open), Some(1));
}

#[test]
fn an_open_thread_waits_on_everyone_but_whoever_spoke_last() {
    let log = format!(
        "{}\n{}",
        by("ana", "open", "2026-09-17T10:00:00.000Z", "Why Q3?"),
        by("roma", "reply", "2026-09-17T10:05:00.000Z", "The audit.")
    );
    let waiting = fold(&[(".studio/comments/docs/prd.md/oidc-ana.jsonl", &log)]).waiting;
    assert_eq!(waiting.len(), 1);
    assert_eq!(waiting[0].id, "oidc:ana");
    assert_eq!(waiting[0].threads, 1);
}

#[test]
fn the_last_speaker_is_not_waiting_on_themselves() {
    let one = by("ana", "open", "2026-09-17T10:00:00.000Z", "Why Q3?");
    let waiting = fold(&[(".studio/comments/docs/prd.md/oidc-ana.jsonl", &one)]).waiting;
    assert!(waiting.is_empty(), "{waiting:?}");
}

#[test]
fn a_resolved_thread_waits_on_nobody() {
    let log = format!(
        "{}\n{}\n{}",
        by("ana", "open", "2026-09-17T10:00:00.000Z", "Why Q3?"),
        by("roma", "reply", "2026-09-17T10:05:00.000Z", "The audit."),
        r#"{"op":"resolve","thread":"t1","at":"2026-09-17T11:00:00.000Z","by":{"id":"oidc:roma","key":"oidc-roma","name":"roma"}}"#
    );
    let folded = fold(&[(".studio/comments/docs/prd.md/oidc-ana.jsonl", &log)]);
    assert_eq!(
        folded.counts_for("docs/prd.md").map(|c| c.resolved),
        Some(1)
    );
    assert!(folded.waiting.is_empty(), "{:?}", folded.waiting);
}

#[test]
fn a_thread_written_before_identity_existed_waits_on_nobody() {
    let log = format!(
        "{}\n{}",
        r#"{"op":"open","thread":"t1","at":"2026-09-17T10:00:00.000Z","body":"Why Q3?"}"#,
        r#"{"op":"reply","thread":"t1","at":"2026-09-17T10:05:00.000Z","body":"The audit."}"#
    );
    let folded = fold(&[(".studio/comments/docs/prd.md/legacy.jsonl", &log)]);
    assert_eq!(folded.counts_for("docs/prd.md").map(|c| c.open), Some(1));
    assert!(folded.waiting.is_empty(), "{:?}", folded.waiting);
}

#[test]
fn one_person_waited_on_across_two_documents_is_one_row() {
    let log = format!(
        "{}\n{}",
        by("ana", "open", "2026-09-17T10:00:00.000Z", "Why Q3?"),
        by("roma", "reply", "2026-09-17T10:05:00.000Z", "The audit.")
    );
    let waiting = fold(&[
        (".studio/comments/docs/prd.md/oidc-ana.jsonl", log.as_str()),
        (".studio/comments/README.md/oidc-ana.jsonl", log.as_str()),
    ])
    .waiting;
    assert_eq!(waiting.len(), 1);
    assert_eq!(waiting[0].threads, 2);
}

#[test]
fn the_most_waited_on_person_is_first() {
    let busy = format!(
        "{}\n{}",
        by("ana", "open", "2026-09-17T10:00:00.000Z", "Why Q3?"),
        by("roma", "reply", "2026-09-17T10:05:00.000Z", "The audit.")
    );
    let quiet = format!(
        "{}\n{}",
        r#"{"op":"open","thread":"t2","at":"2026-09-17T10:00:00.000Z","by":{"id":"oidc:vlad","key":"oidc-vlad","name":"vlad"},"body":"And this?"}"#,
        r#"{"op":"reply","thread":"t2","at":"2026-09-17T10:05:00.000Z","by":{"id":"oidc:roma","key":"oidc-roma","name":"roma"},"body":"Yes."}"#
    );
    let waiting = fold(&[
        (".studio/comments/a.md/x.jsonl", busy.as_str()),
        (".studio/comments/b.md/x.jsonl", busy.as_str()),
        (".studio/comments/c.md/y.jsonl", quiet.as_str()),
    ])
    .waiting;
    assert_eq!(waiting[0].id, "oidc:ana");
    assert_eq!(waiting[0].threads, 2);
    assert_eq!(waiting[1].id, "oidc:vlad");
    assert_eq!(waiting[1].threads, 1);
}

#[test]
fn a_person_is_credited_once_per_thread_however_often_they_wrote() {
    let log = format!(
        "{}\n{}\n{}",
        by("ana", "open", "2026-09-17T10:00:00.000Z", "Why Q3?"),
        by("ana", "reply", "2026-09-17T10:01:00.000Z", "Or Q4?"),
        by("roma", "reply", "2026-09-17T10:05:00.000Z", "The audit.")
    );
    let waiting = fold(&[(".studio/comments/a.md/x.jsonl", &log)]).waiting;
    assert_eq!(waiting.len(), 1);
    assert_eq!(waiting[0].threads, 1);
}

#[test]
fn a_waiting_person_is_named_by_the_newest_name_they_wrote_under() {
    let log = format!(
        "{}\n{}\n{}",
        r#"{"op":"open","thread":"t1","at":"2026-09-17T10:00:00.000Z","by":{"id":"oidc:ana","name":"Ana"},"body":"a"}"#,
        r#"{"op":"reply","thread":"t1","at":"2026-09-17T10:01:00.000Z","by":{"id":"oidc:ana","name":"Ana K."},"body":"b"}"#,
        by("roma", "reply", "2026-09-17T10:05:00.000Z", "c")
    );
    let waiting = fold(&[(".studio/comments/a.md/x.jsonl", &log)]).waiting;
    assert_eq!(waiting[0].name, "Ana");
}

#[test]
fn a_path_outside_the_sidecar_directory_or_without_a_document_is_ignored() {
    let one = op("2026-09-17T10:00:00.000Z", "Why?");
    let found = counts(&[
        (".studio/comments/oidc-a.jsonl", one.as_str()),
        (".studio/comments/.json", r#"{"threads":[{"id":"x","messages":[{"id":"m"}]}]}"#),
        (".studio/comments/dir/.json", r#"{"threads":[{"id":"x","messages":[{"id":"m"}]}]}"#),
        ("elsewhere/.studio/comments/a.md/x.jsonl", one.as_str()),
    ]);
    assert!(found.documents.is_empty());
}

#[test]
fn files_that_are_not_sidecars_change_nothing() {
    let log = by("ana", "open", "2026-09-17T10:00:00.000Z", "Why?");
    let base = vec![(".studio/comments/docs/prd.md/oidc-ana.jsonl", log.as_str())];
    let mut more = base.clone();
    more.push(("src/main.rs", "fn main() {}"));
    more.push((".studio/comments/notes.txt", "{}"));
    more.push(("docs/.studio/comments/x.json", "[]"));
    let a = fold(&base);
    let b = fold(&more);
    assert_eq!(a.documents, b.documents);
    assert_eq!(a.waiting, b.waiting);
}

#[test]
fn documents_come_ascending_by_path() {
    let log = by("ana", "open", "2026-09-17T10:00:00.000Z", "Why?");
    let out = fold(&[
        (".studio/comments/docs/zeta.md/oidc-ana.jsonl", log.as_str()),
        (".studio/comments/docs/alpha.md/oidc-ana.jsonl", log.as_str()),
    ]);
    let paths: Vec<&str> = out.documents.iter().map(|(p, _)| p.as_str()).collect();
    assert_eq!(paths, vec!["docs/alpha.md", "docs/zeta.md"]);
}
