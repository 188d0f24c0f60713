use studio_backend::components_catalog::scaffold::{
    scaffold_next, scaffold_start, ScaffoldAction, ScaffoldEvent, ScaffoldFile, ScaffoldStage, ScaffoldState,
};

fn files() -> Vec<ScaffoldFile> {
    vec![ScaffoldFile { path: "product.gdl".to_owned(), content: "product shop {}\n".to_owned() }]
}

fn start(base: &str, branch: &str, pr: Option<&str>) -> ScaffoldState {
    scaffold_start(base, branch, files(), "product: describe shop for Gearbox", pr)
}

fn step(s: ScaffoldState, e: ScaffoldEvent) -> (ScaffoldState, ScaffoldAction) {
    scaffold_next(s, e)
}

fn answer(t: &str) -> ScaffoldEvent {
    ScaffoldEvent::Answer(t.to_owned())
}

/// Drive a write to the point where the branch is being created.
fn to_create(pr: Option<&str>) -> ScaffoldState {
    let s = start("main", "product/shop-dead0b07", pr);
    let (s, a) = step(s, ScaffoldEvent::Begin);
    assert!(matches!(a, ScaffoldAction::ReadBranch(ref b) if b == "main"));
    let (s, a) = step(s, answer("base1"));
    assert!(matches!(a, ScaffoldAction::ReadCommit(ref c) if c == "base1"));
    let (s, a) = step(s, answer("tree0"));
    match &a {
        ScaffoldAction::MakeTree { base_tree, entries } => {
            assert_eq!(base_tree, "tree0");
            assert_eq!(entries.len(), 1);
            assert_eq!(entries[0].path, "product.gdl");
            assert_eq!(entries[0].mode, "100644");
            assert_eq!(entries[0].kind, "blob");
            assert_eq!(entries[0].content, "product shop {}\n");
        },
        other => panic!("unexpected {other:?}"),
    }
    let (s, a) = step(s, answer("tree1"));
    assert!(matches!(a, ScaffoldAction::MakeCommit { ref tree, ref parent, ref message }
        if tree == "tree1" && parent == "base1" && message == "product: describe shop for Gearbox"));
    let (s, a) = step(s, answer("commit1"));
    assert!(matches!(a, ScaffoldAction::CreateBranch { ref branch, ref sha } if branch == "product/shop-dead0b07" && sha == "commit1"));
    assert_eq!(s.stage, ScaffoldStage::Created);
    s
}

#[test]
fn a_new_branch_gets_the_commit_and_the_write_is_done() {
    let (_, a) = step(to_create(None), answer("ok"));
    match a {
        ScaffoldAction::Done(w) => {
            assert_eq!(w.branch, "product/shop-dead0b07");
            assert_eq!(w.commit_sha, "commit1");
            assert_eq!(w.pr_url, None);
        },
        other => panic!("unexpected {other:?}"),
    }
}

#[test]
fn saving_the_same_description_again_returns_the_branch_already_there() {
    let s = to_create(None);
    let (s, a) = step(s, ScaffoldEvent::Failed("422: Reference already exists".to_owned()));
    assert!(matches!(a, ScaffoldAction::CheckHolds(ref b) if b == "product/shop-dead0b07"));
    let (s, a) = step(s, ScaffoldEvent::Holds(true));
    assert!(matches!(a, ScaffoldAction::ReadBranch(ref b) if b == "product/shop-dead0b07"));
    let (_, a) = step(s, answer("older-tip"));
    match a {
        ScaffoldAction::Done(w) => assert_eq!(w.commit_sha, "older-tip"),
        other => panic!("unexpected {other:?}"),
    }
}

#[test]
fn a_branch_with_other_content_is_left_alone() {
    let s = to_create(None);
    let (s, _) = step(s, ScaffoldEvent::Failed("Reference already exists".to_owned()));
    let (s, a) = step(s, ScaffoldEvent::Holds(false));
    match a {
        ScaffoldAction::Fail(e) => assert_eq!(
            e,
            "branch 'product/shop-dead0b07' already exists with different content; nothing was overwritten. Delete or rename it, or pick another branch"
        ),
        other => panic!("unexpected {other:?}"),
    }
    assert_eq!(s.stage, ScaffoldStage::Finished);
}

#[test]
fn another_failure_to_create_the_branch_is_reported() {
    let (_, a) = step(to_create(None), ScaffoldEvent::Failed("403".to_owned()));
    assert!(matches!(a, ScaffoldAction::Fail(ref e) if e == "create branch 'product/shop-dead0b07': 403"));
}

#[test]
fn a_pull_request_already_open_is_the_one_returned() {
    let (s, a) = step(to_create(Some("Describe")), answer("ok"));
    assert!(matches!(a, ScaffoldAction::OpenPullRequest { ref title, ref head, ref base }
        if title == "Describe" && head == "product/shop-dead0b07" && base == "main"));
    let (s, a) = step(s, ScaffoldEvent::Failed("A pull request already exists for x".to_owned()));
    assert!(matches!(a, ScaffoldAction::FindPullRequest(_)));
    let (_, a) = step(s, ScaffoldEvent::Found(Some("https://example.test/pr/1".to_owned())));
    match a {
        ScaffoldAction::Done(w) => assert_eq!(w.pr_url.as_deref(), Some("https://example.test/pr/1")),
        other => panic!("unexpected {other:?}"),
    }
}

#[test]
fn a_write_onto_the_base_branch_moves_it_and_opens_no_pull_request() {
    let s = start("main", "main", Some("ignored"));
    let (s, _) = step(s, ScaffoldEvent::Begin);
    let (s, _) = step(s, answer("base1"));
    let (s, _) = step(s, answer("tree0"));
    let (s, _) = step(s, answer("tree1"));
    let (s, a) = step(s, answer("commit1"));
    assert!(matches!(a, ScaffoldAction::MoveBranch { ref branch, ref sha } if branch == "main" && sha == "commit1"));
    let (_, a) = step(s, answer("ok"));
    assert!(matches!(a, ScaffoldAction::Done(ref w) if w.pr_url.is_none() && w.commit_sha == "commit1"));
}

#[test]
fn an_unreadable_base_branch_and_an_answer_out_of_turn() {
    let s = start("main", "b", None);
    let (s, _) = step(s, ScaffoldEvent::Begin);
    let (s, a) = step(s, ScaffoldEvent::Failed("404".to_owned()));
    assert!(matches!(a, ScaffoldAction::Fail(ref e) if e == "read base branch 'main': 404"));
    let (_, a) = step(s, answer("late"));
    assert!(matches!(a, ScaffoldAction::Fail(_)));
}

use base64::Engine;
use studio_backend::components_catalog::scaffold::{branch_holds, content_matches};

fn served(text: &str) -> String {
    let b = base64::engine::general_purpose::STANDARD.encode(text.as_bytes());
    // Wrapped over lines, as the contents API serves it.
    let mut out = String::new();
    for (i, c) in b.chars().enumerate() {
        if i > 0 && i % 8 == 0 {
            out.push('\n');
        }
        out.push(c);
    }
    out
}

#[test]
fn served_content_matches_byte_for_byte() {
    assert_eq!(content_matches(&served("product shop {}\n"), "product shop {}\n"), Some(true));
    assert_eq!(content_matches(&served("product shop {}\n"), "product shop {} \n"), Some(false));
    assert_eq!(content_matches("!!not base64!!", "x"), None);
}

#[test]
fn a_branch_holds_the_files_when_every_one_matches() {
    let fs = files();
    assert_eq!(branch_holds(&[Some(served("product shop {}\n"))], &fs, "b"), Ok(true));
    assert_eq!(branch_holds(&[None], &fs, "b"), Ok(false));
    assert_eq!(branch_holds(&[Some(served("other"))], &fs, "b"), Ok(false));
    assert_eq!(
        branch_holds(&[Some("@@".to_owned())], &fs, "b"),
        Err("decode product.gdl on 'b': not valid base64".to_owned())
    );
}
