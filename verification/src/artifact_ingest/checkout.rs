//! Bringing the shared checkout up to its remote before a sync reads it:
//! fast-forward only when a pull would lose nothing — a clean working tree
//! whose history the remote extends — and otherwise leave it as it stands
//! and say why.

use vstd::prelude::*;

use crate::artifact_ingest::clone::CheckoutUpdate;
use crate::text::{chars_of, opt_view, push_str, str_eq, string_of, strip_prefix, strip_prefix_exec};

verus! {

/// What an update of the checkout is waiting for.
#[derive(Debug, Clone, Copy, PartialEq, Eq, Structural)]
pub enum CheckoutStage {
    /// Nothing asked yet.
    Start,
    /// The checkout's upstream branch (`git rev-parse @{u}`).
    Upstream,
    /// The remote's default branch (`refs/remotes/origin/HEAD`).
    DefaultBranch,
    /// The fetch of the tracked branch.
    Fetch,
    /// The checkout's HEAD commit.
    Head,
    /// The fetched tip of the tracked branch.
    Remote,
    /// Whether the working tree has local changes.
    Clean,
    /// Whether HEAD is an ancestor of the remote's tip.
    Ancestry,
    /// The fast-forward.
    Merge,
    /// Over.
    Finished,
}

/// An update in progress, and what it has learnt.
#[derive(Debug)]
pub struct CheckoutState {
    pub stage: CheckoutStage,
    pub branch: String,
    pub head: String,
    pub remote: String,
    /// The working tree was found clean.
    pub clean: bool,
    /// The remote's tip was found to descend from HEAD.
    pub descends: bool,
}

pub struct CheckoutStateV {
    pub stage: CheckoutStage,
    pub branch: Seq<char>,
    pub head: Seq<char>,
    pub remote: Seq<char>,
    pub clean: bool,
    pub descends: bool,
}

impl View for CheckoutState {
    type V = CheckoutStateV;

    open spec fn view(&self) -> CheckoutStateV {
        CheckoutStateV {
            stage: self.stage,
            branch: self.branch@,
            head: self.head@,
            remote: self.remote@,
            clean: self.clean,
            descends: self.descends,
        }
    }
}

/// What git answered to the last action.
#[derive(Debug)]
pub enum CheckoutEvent {
    Begin,
    /// The output of a read-only question, trimmed; `None` when git failed.
    Answer(Option<String>),
    /// Whether HEAD is an ancestor of the remote's tip.
    Ancestor(bool),
    /// The fetch or the merge ran.
    Ran,
    /// The fetch or the merge failed, with git's words.
    Failed(String),
}

pub enum CheckoutEventV {
    Begin,
    Answer(Option<Seq<char>>),
    Ancestor(bool),
    Ran,
    Failed(Seq<char>),
}

impl View for CheckoutEvent {
    type V = CheckoutEventV;

    open spec fn view(&self) -> CheckoutEventV {
        match self {
            CheckoutEvent::Begin => CheckoutEventV::Begin,
            CheckoutEvent::Answer(a) => CheckoutEventV::Answer(opt_view(*a)),
            CheckoutEvent::Ancestor(b) => CheckoutEventV::Ancestor(*b),
            CheckoutEvent::Ran => CheckoutEventV::Ran,
            CheckoutEvent::Failed(e) => CheckoutEventV::Failed(e@),
        }
    }
}

/// What to do next.
#[derive(Debug)]
pub enum CheckoutAction {
    ReadUpstream,
    ReadDefaultBranch,
    /// Fetch `+refs/heads/{b}:refs/remotes/origin/{b}`.
    Fetch(String),
    ReadHead,
    /// Read the tip of `origin/{b}`.
    ReadRemote(String),
    ReadStatus,
    /// Is the first commit an ancestor of the second?
    CheckAncestor { head: String, remote: String },
    /// `git merge --ff-only origin/{b}`.
    FastForward(String),
    Done(CheckoutUpdate),
    Fail(String),
}

pub enum CheckoutUpdateV {
    Current,
    Advanced { from: Seq<char>, to: Seq<char> },
    Kept { reason: Seq<char> },
}

pub open spec fn update_view(u: CheckoutUpdate) -> CheckoutUpdateV {
    match u {
        CheckoutUpdate::Current => CheckoutUpdateV::Current,
        CheckoutUpdate::Advanced { from, to } => CheckoutUpdateV::Advanced { from: from@, to: to@ },
        CheckoutUpdate::Kept { reason } => CheckoutUpdateV::Kept { reason: reason@ },
    }
}

pub enum CheckoutActionV {
    ReadUpstream,
    ReadDefaultBranch,
    Fetch(Seq<char>),
    ReadHead,
    ReadRemote(Seq<char>),
    ReadStatus,
    CheckAncestor { head: Seq<char>, remote: Seq<char> },
    FastForward(Seq<char>),
    Done(CheckoutUpdateV),
    Fail(Seq<char>),
}

impl View for CheckoutAction {
    type V = CheckoutActionV;

    open spec fn view(&self) -> CheckoutActionV {
        match self {
            CheckoutAction::ReadUpstream => CheckoutActionV::ReadUpstream,
            CheckoutAction::ReadDefaultBranch => CheckoutActionV::ReadDefaultBranch,
            CheckoutAction::Fetch(b) => CheckoutActionV::Fetch(b@),
            CheckoutAction::ReadHead => CheckoutActionV::ReadHead,
            CheckoutAction::ReadRemote(b) => CheckoutActionV::ReadRemote(b@),
            CheckoutAction::ReadStatus => CheckoutActionV::ReadStatus,
            CheckoutAction::CheckAncestor { head, remote } => CheckoutActionV::CheckAncestor {
                head: head@,
                remote: remote@,
            },
            CheckoutAction::FastForward(b) => CheckoutActionV::FastForward(b@),
            CheckoutAction::Done(u) => CheckoutActionV::Done(update_view(*u)),
            CheckoutAction::Fail(e) => CheckoutActionV::Fail(e@),
        }
    }
}

pub open spec fn moved(s: CheckoutStateV, stage: CheckoutStage) -> CheckoutStateV {
    CheckoutStateV { stage, ..s }
}

pub open spec fn done(s: CheckoutStateV, u: CheckoutUpdateV) -> (CheckoutStateV, CheckoutActionV) {
    (moved(s, CheckoutStage::Finished), CheckoutActionV::Done(u))
}

pub open spec fn local_changes_message(branch: Seq<char>) -> Seq<char> {
    "the checkout has local changes; origin/"@ + branch + " is ahead and was not merged"@
}

pub open spec fn diverged_message(branch: Seq<char>) -> Seq<char> {
    "the checkout has commits origin/"@ + branch + " does not; it was not moved"@
}

/// The tracked branch a full name `origin/{b}` names.
pub open spec fn follow_of(s: CheckoutStateV, full: Seq<char>) -> (CheckoutStateV, CheckoutActionV) {
    match strip_prefix(full, "origin/"@) {
        None => done(s, CheckoutUpdateV::Current),
        Some(b) => (CheckoutStateV { stage: CheckoutStage::Fetch, branch: b, ..s }, CheckoutActionV::Fetch(b)),
    }
}

/// One step of bringing the checkout up to its remote. It tracks the
/// checkout's upstream, else the remote's default branch, else nothing (and
/// is then current). After the fetch, a HEAD already at the tip is current;
/// local changes, or history the remote does not extend, keep it as it is;
/// only a clean tree whose HEAD the tip descends from is fast-forwarded.
pub open spec fn checkout_step(s: CheckoutStateV, e: CheckoutEventV) -> (CheckoutStateV, CheckoutActionV) {
    match (s.stage, e) {
        (CheckoutStage::Start, CheckoutEventV::Begin) => (moved(s, CheckoutStage::Upstream), CheckoutActionV::ReadUpstream),
        (CheckoutStage::Upstream, CheckoutEventV::Answer(a)) => match a {
            Some(full) => follow_of(s, full),
            None => (moved(s, CheckoutStage::DefaultBranch), CheckoutActionV::ReadDefaultBranch),
        },
        (CheckoutStage::DefaultBranch, CheckoutEventV::Answer(a)) => match a {
            Some(full) => follow_of(s, full),
            None => done(s, CheckoutUpdateV::Current),
        },
        (CheckoutStage::Fetch, CheckoutEventV::Ran) => (moved(s, CheckoutStage::Head), CheckoutActionV::ReadHead),
        (CheckoutStage::Head, CheckoutEventV::Answer(a)) => match a {
            None => done(s, CheckoutUpdateV::Current),
            Some(h) => (
                CheckoutStateV { stage: CheckoutStage::Remote, head: h, ..s },
                CheckoutActionV::ReadRemote(s.branch),
            ),
        },
        (CheckoutStage::Remote, CheckoutEventV::Answer(a)) => match a {
            None => done(s, CheckoutUpdateV::Current),
            Some(r) => if r == s.head {
                done(s, CheckoutUpdateV::Current)
            } else {
                (CheckoutStateV { stage: CheckoutStage::Clean, remote: r, ..s }, CheckoutActionV::ReadStatus)
            },
        },
        (CheckoutStage::Clean, CheckoutEventV::Answer(a)) => if a matches Some(st) && st.len() > 0 {
            done(s, CheckoutUpdateV::Kept { reason: local_changes_message(s.branch) })
        } else {
            (
                CheckoutStateV { stage: CheckoutStage::Ancestry, clean: true, ..s },
                CheckoutActionV::CheckAncestor { head: s.head, remote: s.remote },
            )
        },
        (CheckoutStage::Ancestry, CheckoutEventV::Ancestor(ok)) => if ok {
            (
                CheckoutStateV { stage: CheckoutStage::Merge, descends: true, ..s },
                CheckoutActionV::FastForward(s.branch),
            )
        } else {
            done(s, CheckoutUpdateV::Kept { reason: diverged_message(s.branch) })
        },
        (CheckoutStage::Merge, CheckoutEventV::Ran) => done(
            s,
            CheckoutUpdateV::Advanced { from: s.head, to: s.remote },
        ),
        (CheckoutStage::Finished, _) => (s, CheckoutActionV::Fail("the update is over"@)),
        (_, CheckoutEventV::Failed(m)) => (moved(s, CheckoutStage::Finished), CheckoutActionV::Fail(m)),
        _ => (moved(s, CheckoutStage::Finished), CheckoutActionV::Fail("git's answer does not fit the step"@)),
    }
}

/// The state an update starts in: nothing learnt.
pub fn checkout_start() -> (out: CheckoutState)
    ensures
        out@ == (CheckoutStateV {
            stage: CheckoutStage::Start,
            branch: seq![],
            head: seq![],
            remote: seq![],
            clean: false,
            descends: false,
        }),
{
    CheckoutState {
        stage: CheckoutStage::Start,
        branch: String::new(),
        head: String::new(),
        remote: String::new(),
        clean: false,
        descends: false,
    }
}

fn moved_exec(s: CheckoutState, stage: CheckoutStage) -> (out: CheckoutState)
    ensures
        out@ == moved(s@, stage),
{
    CheckoutState { stage, ..s }
}

fn done_exec(s: CheckoutState, u: CheckoutUpdate) -> (out: (CheckoutState, CheckoutAction))
    ensures
        (out.0@, out.1@) == done(s@, update_view(u)),
{
    (moved_exec(s, CheckoutStage::Finished), CheckoutAction::Done(u))
}

fn message(before: &str, branch: &str, after: &str) -> (out: String)
    ensures
        out@ == before@ + branch@ + after@,
{
    let mut v: Vec<char> = Vec::new();
    push_str(&mut v, before);
    push_str(&mut v, branch);
    push_str(&mut v, after);
    string_of(&v)
}

fn follow_exec(s: CheckoutState, full: &str) -> (out: (CheckoutState, CheckoutAction))
    ensures
        (out.0@, out.1@) == follow_of(s@, full@),
{
    match strip_prefix_exec(&chars_of(full), "origin/") {
        None => done_exec(s, CheckoutUpdate::Current),
        Some(b) => {
            let branch = string_of(&b);
            let a = CheckoutAction::Fetch(branch.clone());
            (CheckoutState { stage: CheckoutStage::Fetch, branch, ..s }, a)
        },
    }
}

/// One step of bringing the shared checkout up to its remote: given where
/// the update stands and what git answered, the next state and what to do.
pub fn checkout_next(state: CheckoutState, event: CheckoutEvent) -> (out: (CheckoutState, CheckoutAction))
    ensures
        (out.0@, out.1@) == checkout_step(state@, event@),
{
    let s = state;
    match (s.stage, event) {
        (CheckoutStage::Start, CheckoutEvent::Begin) => (moved_exec(s, CheckoutStage::Upstream), CheckoutAction::ReadUpstream),
        (CheckoutStage::Upstream, CheckoutEvent::Answer(a)) => match a {
            Some(full) => follow_exec(s, full.as_str()),
            None => (moved_exec(s, CheckoutStage::DefaultBranch), CheckoutAction::ReadDefaultBranch),
        },
        (CheckoutStage::DefaultBranch, CheckoutEvent::Answer(a)) => match a {
            Some(full) => follow_exec(s, full.as_str()),
            None => done_exec(s, CheckoutUpdate::Current),
        },
        (CheckoutStage::Fetch, CheckoutEvent::Ran) => (moved_exec(s, CheckoutStage::Head), CheckoutAction::ReadHead),
        (CheckoutStage::Head, CheckoutEvent::Answer(a)) => match a {
            None => done_exec(s, CheckoutUpdate::Current),
            Some(h) => {
                let act = CheckoutAction::ReadRemote(s.branch.clone());
                (CheckoutState { stage: CheckoutStage::Remote, head: h, ..s }, act)
            },
        },
        (CheckoutStage::Remote, CheckoutEvent::Answer(a)) => match a {
            None => done_exec(s, CheckoutUpdate::Current),
            Some(r) => {
                if str_eq(r.as_str(), s.head.as_str()) {
                    done_exec(s, CheckoutUpdate::Current)
                } else {
                    (CheckoutState { stage: CheckoutStage::Clean, remote: r, ..s }, CheckoutAction::ReadStatus)
                }
            },
        },
        (CheckoutStage::Clean, CheckoutEvent::Answer(a)) => {
            let dirty = match &a {
                Some(st) => chars_of(st.as_str()).len() > 0,
                None => false,
            };
            if dirty {
                let reason = message(
                    "the checkout has local changes; origin/",
                    s.branch.as_str(),
                    " is ahead and was not merged",
                );
                done_exec(s, CheckoutUpdate::Kept { reason })
            } else {
                let act = CheckoutAction::CheckAncestor { head: s.head.clone(), remote: s.remote.clone() };
                (CheckoutState { stage: CheckoutStage::Ancestry, clean: true, ..s }, act)
            }
        },
        (CheckoutStage::Ancestry, CheckoutEvent::Ancestor(ok)) => {
            if ok {
                let act = CheckoutAction::FastForward(s.branch.clone());
                (CheckoutState { stage: CheckoutStage::Merge, descends: true, ..s }, act)
            } else {
                let reason = message("the checkout has commits origin/", s.branch.as_str(), " does not; it was not moved");
                done_exec(s, CheckoutUpdate::Kept { reason })
            }
        },
        (CheckoutStage::Merge, CheckoutEvent::Ran) => {
            let u = CheckoutUpdate::Advanced { from: s.head.clone(), to: s.remote.clone() };
            done_exec(s, u)
        },
        (CheckoutStage::Finished, _) => (s, CheckoutAction::Fail("the update is over".to_owned())),
        (_, CheckoutEvent::Failed(m)) => (moved_exec(s, CheckoutStage::Finished), CheckoutAction::Fail(m)),
        _ => (moved_exec(s, CheckoutStage::Finished), CheckoutAction::Fail("git's answer does not fit the step".to_owned())),
    }
}

/// What every state of an update reached from the start holds: it is
/// cleared to merge only once the tree was found clean and the remote's
/// tip found to descend from HEAD, and to differ from it.
pub open spec fn checkout_inv(s: CheckoutStateV) -> bool {
    &&& (s.stage == CheckoutStage::Merge ==> s.clean && s.descends)
    &&& (s.stage == CheckoutStage::Ancestry ==> s.clean)
    &&& (s.stage == CheckoutStage::Clean || s.stage == CheckoutStage::Ancestry || s.stage == CheckoutStage::Merge
        ==> s.head != s.remote)
}

/// A pull that could lose something is never made: the update starts in a
/// state that holds the invariant, every step keeps it, and a step reports
/// `Advanced` only from a state where the tree was clean and the remote
/// extends HEAD, moving HEAD from exactly the commit read to exactly the tip
/// read.
pub proof fn law_only_a_clean_extended_checkout_is_advanced(s: CheckoutStateV, e: CheckoutEventV)
    ensures
        checkout_inv(
            CheckoutStateV {
                stage: CheckoutStage::Start,
                branch: seq![],
                head: seq![],
                remote: seq![],
                clean: false,
                descends: false,
            },
        ),
        checkout_inv(s) ==> checkout_inv(checkout_step(s, e).0),
        checkout_inv(s) ==> match checkout_step(s, e).1 {
            CheckoutActionV::Done(CheckoutUpdateV::Advanced { from, to }) => s.clean && s.descends && from == s.head
                && to == s.remote && s.head != s.remote,
            _ => true,
        },
{
}

} // verus!
