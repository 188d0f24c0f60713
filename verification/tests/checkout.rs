use studio_backend::artifact_ingest::checkout::{
    checkout_next, checkout_start, CheckoutAction, CheckoutEvent, CheckoutState,
};
use studio_backend::artifact_ingest::clone::{sorted_by_path, CheckoutUpdate, WalkedFile};

fn answer(t: &str) -> CheckoutEvent {
    CheckoutEvent::Answer(Some(t.to_owned()))
}

fn step(s: CheckoutState, e: CheckoutEvent) -> (CheckoutState, CheckoutAction) {
    checkout_next(s, e)
}

fn to_clean() -> CheckoutState {
    let (s, a) = step(checkout_start(), CheckoutEvent::Begin);
    assert!(matches!(a, CheckoutAction::ReadUpstream));
    let (s, a) = step(s, answer("origin/main"));
    assert!(matches!(a, CheckoutAction::Fetch(ref b) if b == "main"));
    let (s, a) = step(s, CheckoutEvent::Ran);
    assert!(matches!(a, CheckoutAction::ReadHead));
    let (s, a) = step(s, answer("aaa"));
    assert!(matches!(a, CheckoutAction::ReadRemote(ref b) if b == "main"));
    let (s, a) = step(s, answer("bbb"));
    assert!(matches!(a, CheckoutAction::ReadStatus));
    s
}

fn done(a: CheckoutAction) -> CheckoutUpdate {
    match a {
        CheckoutAction::Done(u) => u,
        other => panic!("unexpected {other:?}"),
    }
}

#[test]
fn a_clean_checkout_the_remote_extends_is_fast_forwarded() {
    let (s, a) = step(to_clean(), answer(""));
    assert!(matches!(a, CheckoutAction::CheckAncestor { ref head, ref remote } if head == "aaa" && remote == "bbb"));
    let (s, a) = step(s, CheckoutEvent::Ancestor(true));
    assert!(matches!(a, CheckoutAction::FastForward(ref b) if b == "main"));
    let (_, a) = step(s, CheckoutEvent::Ran);
    assert_eq!(done(a), CheckoutUpdate::Advanced { from: "aaa".to_owned(), to: "bbb".to_owned() });
}

#[test]
fn local_changes_keep_the_checkout() {
    let (_, a) = step(to_clean(), answer(" M docs/prd.md"));
    assert_eq!(
        done(a),
        CheckoutUpdate::Kept {
            reason: "the checkout has local changes; origin/main is ahead and was not merged".to_owned()
        }
    );
}

#[test]
fn diverged_history_keeps_the_checkout() {
    let (s, _) = step(to_clean(), CheckoutEvent::Answer(None));
    let (_, a) = step(s, CheckoutEvent::Ancestor(false));
    assert_eq!(
        done(a),
        CheckoutUpdate::Kept { reason: "the checkout has commits origin/main does not; it was not moved".to_owned() }
    );
}

#[test]
fn no_tracked_branch_or_the_same_commit_is_current() {
    let (s, _) = step(checkout_start(), CheckoutEvent::Begin);
    let (s, a) = step(s, CheckoutEvent::Answer(None));
    assert!(matches!(a, CheckoutAction::ReadDefaultBranch));
    let (_, a) = step(s, CheckoutEvent::Answer(None));
    assert_eq!(done(a), CheckoutUpdate::Current);
    let (s, _) = step(checkout_start(), CheckoutEvent::Begin);
    let (s, _) = step(s, answer("origin/main"));
    let (s, _) = step(s, CheckoutEvent::Ran);
    let (s, _) = step(s, answer("aaa"));
    let (_, a) = step(s, answer("aaa"));
    assert_eq!(done(a), CheckoutUpdate::Current);
}

#[test]
fn a_failed_fetch_is_an_error() {
    let (s, _) = step(checkout_start(), CheckoutEvent::Begin);
    let (s, _) = step(s, answer("origin/main"));
    let (_, a) = step(s, CheckoutEvent::Failed("git fetch failed".to_owned()));
    assert!(matches!(a, CheckoutAction::Fail(ref e) if e == "git fetch failed"));
}

fn file(path: &str, size: u64) -> WalkedFile {
    WalkedFile { path: path.to_owned(), size, text: None }
}

#[test]
fn walked_files_come_in_path_order() {
    let out = sorted_by_path(vec![file("src/main.rs", 1), file("README.md", 2), file("docs/a.md", 3), file("README.md", 4)]);
    let got: Vec<(&str, u64)> = out.iter().map(|f| (f.path.as_str(), f.size)).collect();
    assert_eq!(got, vec![("README.md", 2), ("README.md", 4), ("docs/a.md", 3), ("src/main.rs", 1)]);
}
