use studio_backend::artifact_ingest::activity::{
    activity_feed, parse_rfc3339_ms, repo_activity, EventKind, RepoActivity, DAY_MS,
};
use studio_backend::json::Json;

/// 2026-09-23T12:00:00Z, a Wednesday.
const NOW: i64 = 1_790_164_800_000;

fn civil(z: i64) -> (i64, u32, u32) {
    let z = z + 719_468;
    let era = if z >= 0 { z } else { z - 146_096 } / 146_097;
    let doe = z - era * 146_097;
    let yoe = (doe - doe / 1460 + doe / 36_524 - doe / 146_096) / 365;
    let y = yoe + era * 400;
    let doy = doe - (365 * yoe + yoe / 4 - yoe / 100);
    let mp = (5 * doy + 2) / 153;
    let d = (doy - (153 * mp + 2) / 5 + 1) as u32;
    let m = (if mp < 10 { mp + 3 } else { mp - 9 }) as u32;
    (if m <= 2 { y + 1 } else { y }, m, d)
}

fn ago(days: i64) -> String {
    let ms = NOW - days * DAY_MS;
    let secs = ms / 1000;
    let day = secs.div_euclid(86_400);
    let rest = secs.rem_euclid(86_400);
    let (y, m, d) = civil(day);
    format!(
        "{y:04}-{m:02}-{d:02}T{:02}:{:02}:{:02}Z",
        rest / 3600,
        (rest % 3600) / 60,
        rest % 60
    )
}

fn json(text: &str) -> Json {
    Json::parse(text).expect("test JSON parses")
}

fn pull(state: &str, updated: &str, repo: &str) -> Json {
    json(&format!(
        r#"{{"repo": "{repo}", "state": "{state}", "updated_at": "{updated}"}}"#
    ))
}

fn commit_at(created: &str, repo: &str) -> Json {
    json(&format!(r#"{{"repo": "{repo}", "created_at": "{created}"}}"#))
}

fn get<'a>(out: &'a [(String, RepoActivity)], repo: &str) -> &'a RepoActivity {
    &out.iter().find(|(r, _)| r == repo).expect("repository present").1
}

#[test]
fn a_timestamp_reads_back_as_the_instant_it_names() {
    assert_eq!(parse_rfc3339_ms("2026-09-23T12:00:00Z"), Some(NOW));
    assert_eq!(parse_rfc3339_ms("2026-09-23T12:00:00.123Z"), Some(NOW));
    assert_eq!(parse_rfc3339_ms("2026-09-23T12:00:00"), Some(NOW));
    assert_eq!(parse_rfc3339_ms("2026-09-23T14:00:00+02:00"), Some(NOW));
    assert_eq!(parse_rfc3339_ms("2026-09-23T10:00:00-0200"), Some(NOW));
}

#[test]
fn a_time_that_is_not_one_is_no_time_rather_than_a_wrong_one() {
    for value in ["", "yesterday", "2026-09-23", "2026-13-01T00:00:00Z", "x"] {
        assert_eq!(parse_rfc3339_ms(value), None, "{value}");
    }
}

#[test]
fn a_short_zone_and_a_bad_zone() {
    assert_eq!(parse_rfc3339_ms("2026-09-23T12:00:00+02"), Some(NOW));
    assert_eq!(parse_rfc3339_ms("2026-09-23T12:00:00+ab:00"), None);
    assert_eq!(parse_rfc3339_ms("1970-01-01 00:00:01Z"), Some(1000));
}

#[test]
fn an_open_pull_request_counts_however_old_it_is() {
    let out = repo_activity(&[pull("open", &ago(90), "r1")], &[], NOW, 7);
    assert_eq!(get(&out, "r1").open, 1);
    assert_eq!(get(&out, "r1").merged, 0);
}

#[test]
fn a_merge_counts_only_inside_the_window() {
    let inside = repo_activity(&[pull("merged", &ago(2), "r1")], &[], NOW, 7);
    assert_eq!(get(&inside, "r1").merged, 1);
    let outside = repo_activity(&[pull("merged", &ago(30), "r1")], &[], NOW, 7);
    assert_eq!(get(&outside, "r1").merged, 0);
    assert_eq!(get(&outside, "r1").open, 0, "merged is not open");
}

#[test]
fn the_merged_flag_counts_as_much_as_the_state() {
    let out = repo_activity(
        &[json(&format!(
            r#"{{"repo": "r1", "merged": true, "updated_at": "{}"}}"#,
            ago(1)
        ))],
        &[],
        NOW,
        7,
    );
    assert_eq!(get(&out, "r1").merged, 1);
    assert_eq!(get(&out, "r1").open, 0);
}

#[test]
fn a_closed_unmerged_pull_request_is_not_open() {
    let out = repo_activity(&[pull("closed", &ago(1), "r1")], &[], NOW, 7);
    assert_eq!(get(&out, "r1").open, 0);
    assert_eq!(get(&out, "r1").merged, 0);
}

#[test]
fn today_is_the_last_bucket_not_a_stub_at_the_end() {
    let out = repo_activity(&[pull("open", &ago(0), "r1")], &[], NOW, 7);
    assert_eq!(get(&out, "r1").days.last().copied(), Some(1));
}

#[test]
fn days_run_oldest_first() {
    let out = repo_activity(
        &[pull("open", &ago(6), "r1"), pull("open", &ago(0), "r1")],
        &[],
        NOW,
        7,
    );
    assert_eq!(get(&out, "r1").days.first().copied(), Some(1));
    assert_eq!(get(&out, "r1").days.last().copied(), Some(1));
}

#[test]
fn a_quiet_repository_still_gets_a_full_week_of_buckets() {
    let out = repo_activity(&[], &[commit_at(&ago(1), "r1")], NOW, 7);
    assert_eq!(get(&out, "r1").days.len(), 7);
    assert!(get(&out, "r1").days.iter().all(|n| *n == 0));
    assert_eq!(get(&out, "r1").commits, 1);
}

#[test]
fn repositories_are_kept_apart() {
    let out = repo_activity(
        &[pull("open", &ago(1), "r1")],
        &[commit_at(&ago(1), "r2")],
        NOW,
        7,
    );
    assert_eq!(get(&out, "r1").open, 1);
    assert_eq!(get(&out, "r1").commits, 0);
    assert_eq!(get(&out, "r2").open, 0);
    assert_eq!(get(&out, "r2").commits, 1);
}

#[test]
fn a_node_with_no_repository_on_it_is_ignored() {
    let out = repo_activity(
        &[json(&format!(r#"{{"state": "open", "updated_at": "{}"}}"#, ago(1)))],
        &[json(&format!(r#"{{"created_at": "{}"}}"#, ago(1)))],
        NOW,
        7,
    );
    assert!(out.is_empty());
}

#[test]
fn a_date_that_cannot_be_read_costs_the_bucket_not_the_row() {
    let out = repo_activity(
        &[json(r#"{"repo": "r1", "state": "open", "updated_at": "not a date"}"#)],
        &[json(r#"{"repo": "r1", "created_at": "also not"}"#)],
        NOW,
        7,
    );
    assert_eq!(get(&out, "r1").open, 1);
    assert_eq!(get(&out, "r1").commits, 0);
    assert!(get(&out, "r1").days.iter().all(|n| *n == 0));
}

#[test]
fn repositories_come_out_in_key_order() {
    let out = repo_activity(
        &[pull("open", &ago(1), "zeta"), pull("open", &ago(1), "alpha")],
        &[commit_at(&ago(1), "mid")],
        NOW,
        3,
    );
    let keys: Vec<&str> = out.iter().map(|(k, _)| k.as_str()).collect();
    assert_eq!(keys, ["alpha", "mid", "zeta"]);
    assert_eq!(get(&out, "alpha").days, vec![0, 1, 0]);
}

fn finding(id: &str, value: &str) -> (String, Json) {
    (id.to_owned(), json(value))
}

#[test]
fn a_finding_reads_as_a_check_naming_the_detector_that_made_it() {
    let out = activity_feed(
        &[finding(
            "f1",
            &format!(
                r#"{{"subject": "n1", "detector": "bloat", "recorded_at": "{}", "severity": "high"}}"#,
                ago(1)
            ),
        )],
        &[],
        &[],
    );
    assert_eq!(out[0].kind, EventKind::Check);
    assert_eq!(out[0].event, "Document checked");
    assert_eq!(out[0].by, "bloat");
    assert_eq!(out[0].severity.as_deref(), Some("high"));
}

#[test]
fn a_check_with_no_detector_is_still_the_products_own() {
    let out = activity_feed(&[finding("f1", r#"{"subject": "n1"}"#)], &[], &[]);
    assert_eq!(out[0].by, "Studio");
}

#[test]
fn a_subject_falls_back_to_its_file_then_to_its_id_rather_than_being_dropped() {
    let named = vec![("n1".to_owned(), "prd.md".to_owned())];
    let out = activity_feed(
        &[
            finding("f1", r#"{"subject": "n1"}"#),
            finding("f2", r#"{"subject": "n2", "path": "docs/adr/0007-shell.md"}"#),
            finding("f3", "{}"),
        ],
        &[],
        &named,
    );
    let by_id = |id: &str| out.iter().find(|e| e.id == id).unwrap();
    assert_eq!(by_id("f1").subject, "prd.md", "the name wins");
    assert_eq!(by_id("f2").subject, "0007-shell.md", "then the file");
    assert_eq!(by_id("f3").subject, "f3", "and a row is never dropped");
}

#[test]
fn a_comment_reads_as_what_it_is_on_not_as_its_own_text() {
    let out = activity_feed(
        &[],
        &[finding(
            "c1",
            r#"{"target_number": 42, "title": "Looks good to me", "author": "ann"}"#,
        )],
        &[],
    );
    assert_eq!(out[0].kind, EventKind::Comment);
    assert_eq!(out[0].subject, "#42");
    assert_eq!(out[0].by, "ann");
}

#[test]
fn a_comment_with_no_number_falls_back_to_its_title() {
    let out = activity_feed(&[], &[finding("c1", r#"{"title": "On the design"}"#)], &[]);
    assert_eq!(out[0].subject, "On the design");
    assert_eq!(out[0].by, "unknown");
}

#[test]
fn the_feed_runs_newest_first() {
    let out = activity_feed(
        &[
            finding("old", &format!(r#"{{"subject": "a", "recorded_at": "{}"}}"#, ago(9))),
            finding("new", &format!(r#"{{"subject": "b", "recorded_at": "{}"}}"#, ago(1))),
        ],
        &[],
        &[],
    );
    assert_eq!(out[0].id, "new");
    assert_eq!(out[1].id, "old");
}

#[test]
fn an_undated_row_goes_last_not_first() {
    let out = activity_feed(
        &[
            finding("undated", r#"{"subject": "a"}"#),
            finding("dated", &format!(r#"{{"subject": "b", "recorded_at": "{}"}}"#, ago(9))),
        ],
        &[],
        &[],
    );
    assert_eq!(out[0].id, "dated");
    assert_eq!(out[1].id, "undated");
}

#[test]
fn both_kinds_share_one_ordering() {
    let out = activity_feed(
        &[finding("f", &format!(r#"{{"subject": "a", "recorded_at": "{}"}}"#, ago(5)))],
        &[finding("c", &format!(r#"{{"target_number": 1, "created_at": "{}"}}"#, ago(1)))],
        &[],
    );
    assert_eq!(out[0].id, "c");
    assert_eq!(out[1].id, "f");
}

#[test]
fn a_negative_number_and_ties_go_by_id() {
    let out = activity_feed(
        &[finding("b", "{}"), finding("a", "{}")],
        &[finding("c", r#"{"target_number": -3}"#)],
        &[],
    );
    let ids: Vec<&str> = out.iter().map(|e| e.id.as_str()).collect();
    assert_eq!(ids, ["a", "b", "c"]);
    assert_eq!(out[2].subject, "#-3");
    assert_eq!(EventKind::Comment.as_str(), "comment");
}

#[test]
fn a_zone_cut_inside_a_character_reads_as_no_time() {
    assert_eq!(parse_rfc3339_ms("2026-09-23T12:00:00+aé1"), None);
    // Too short to be an offset at all: read as UTC, like `+02`.
    assert_eq!(parse_rfc3339_ms("2026-09-23T12:00:00+é"), Some(NOW));
}
