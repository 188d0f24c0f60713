//! What a scaffold writes into a repository, and the steps of writing it:
//! a branch off the base branch, one commit of the files, and a pull request
//! when one is asked for.

use vstd::prelude::*;

use crate::git_proxy::sources::{b64_decode, base64_decoded};
use crate::text::{chars_of, contains, contains_exec, is_ws, is_ws_char, push_str, str_eq, string_of};
use vstd::utf8::encode_utf8;

verus! {

/// One file to write into the repository.
#[derive(Clone, Debug)]
pub struct ScaffoldFile {
    pub path: String,
    pub content: String,
}

impl View for ScaffoldFile {
    type V = (Seq<char>, Seq<char>);

    open spec fn view(&self) -> (Seq<char>, Seq<char>) {
        (self.path@, self.content@)
    }
}

/// Where the scaffold landed.
#[derive(Debug)]
pub struct ScaffoldWrite {
    pub branch: String,
    pub commit_sha: String,
    pub pr_url: Option<String>,
}

pub struct ScaffoldWriteV {
    pub branch: Seq<char>,
    pub commit_sha: Seq<char>,
    pub pr_url: Option<Seq<char>>,
}

impl View for ScaffoldWrite {
    type V = ScaffoldWriteV;

    open spec fn view(&self) -> ScaffoldWriteV {
        ScaffoldWriteV { branch: self.branch@, commit_sha: self.commit_sha@, pr_url: opt_string_view(self.pr_url) }
    }
}

pub open spec fn opt_string_view(s: Option<String>) -> Option<Seq<char>> {
    match s {
        Some(t) => Some(t@),
        None => None,
    }
}

/// What a write of a scaffold is waiting for.
#[derive(Debug, Clone, Copy, PartialEq, Eq, Structural)]
pub enum ScaffoldStage {
    /// Nothing asked yet.
    Start,
    /// The tip of the base branch.
    BaseTip,
    /// The tree of that tip.
    BaseTree,
    /// The new tree, the files inlined onto the base tree.
    NewTree,
    /// The one commit on top of the base.
    NewCommit,
    /// The base branch moved onto the new commit.
    Moved,
    /// The branch created at the new commit.
    Created,
    /// Whether a branch already there holds exactly these files.
    Holds,
    /// The tip of that branch.
    ExistingTip,
    /// The pull request opened.
    PullRequest,
    /// The open pull request already there for the branch.
    OpenPullRequest,
    /// Done, one way or the other.
    Finished,
}

/// A write in progress: what was asked for, and what has come back so far.
#[derive(Debug)]
pub struct ScaffoldState {
    pub base_branch: String,
    pub branch: String,
    pub pr_title: Option<String>,
    pub stage: ScaffoldStage,
    pub base_sha: String,
    pub commit_sha: String,
    /// The files the commit writes.
    pub files: Vec<ScaffoldFile>,
    /// The commit's message.
    pub message: String,
}

pub struct ScaffoldStateV {
    pub base_branch: Seq<char>,
    pub branch: Seq<char>,
    pub pr_title: Option<Seq<char>>,
    pub stage: ScaffoldStage,
    pub base_sha: Seq<char>,
    pub commit_sha: Seq<char>,
    pub files: Seq<(Seq<char>, Seq<char>)>,
    pub message: Seq<char>,
}

pub open spec fn scaffold_file_views(v: Seq<ScaffoldFile>) -> Seq<(Seq<char>, Seq<char>)> {
    v.map_values(|f: ScaffoldFile| f@)
}

/// One entry of the tree a commit is made of: a regular file inlined as a
/// blob.
#[derive(Debug)]
pub struct TreeEntry {
    pub path: String,
    /// Always `100644`, a regular file.
    pub mode: String,
    /// Always `blob`.
    pub kind: String,
    pub content: String,
}

pub struct TreeEntryV {
    pub path: Seq<char>,
    pub mode: Seq<char>,
    pub kind: Seq<char>,
    pub content: Seq<char>,
}

impl View for TreeEntry {
    type V = TreeEntryV;

    open spec fn view(&self) -> TreeEntryV {
        TreeEntryV { path: self.path@, mode: self.mode@, kind: self.kind@, content: self.content@ }
    }
}

pub open spec fn tree_entry_views(v: Seq<TreeEntry>) -> Seq<TreeEntryV> {
    v.map_values(|e: TreeEntry| e@)
}

/// The tree entries for `files`: each a regular file, its content inlined.
pub open spec fn tree_of(files: Seq<(Seq<char>, Seq<char>)>) -> Seq<TreeEntryV> {
    files.map_values(|f: (Seq<char>, Seq<char>)| TreeEntryV { path: f.0, mode: "100644"@, kind: "blob"@, content: f.1 })
}

impl View for ScaffoldState {
    type V = ScaffoldStateV;

    open spec fn view(&self) -> ScaffoldStateV {
        ScaffoldStateV {
            base_branch: self.base_branch@,
            branch: self.branch@,
            pr_title: opt_string_view(self.pr_title),
            stage: self.stage,
            base_sha: self.base_sha@,
            commit_sha: self.commit_sha@,
            files: scaffold_file_views(self.files@),
            message: self.message@,
        }
    }
}

/// What the repository answered to the last action.
#[derive(Debug)]
pub enum ScaffoldEvent {
    /// Begin the write.
    Begin,
    /// A sha, or the address of a pull request.
    Answer(String),
    /// Whether the branch already there holds exactly the files.
    Holds(bool),
    /// The open pull request found for the branch, if any.
    Found(Option<String>),
    /// The call failed, with the repository's words.
    Failed(String),
}

pub enum ScaffoldEventV {
    Begin,
    Answer(Seq<char>),
    Holds(bool),
    Found(Option<Seq<char>>),
    Failed(Seq<char>),
}

impl View for ScaffoldEvent {
    type V = ScaffoldEventV;

    open spec fn view(&self) -> ScaffoldEventV {
        match self {
            ScaffoldEvent::Begin => ScaffoldEventV::Begin,
            ScaffoldEvent::Answer(s) => ScaffoldEventV::Answer(s@),
            ScaffoldEvent::Holds(b) => ScaffoldEventV::Holds(*b),
            ScaffoldEvent::Found(o) => ScaffoldEventV::Found(opt_string_view(*o)),
            ScaffoldEvent::Failed(e) => ScaffoldEventV::Failed(e@),
        }
    }
}

/// What to do next against the repository.
#[derive(Debug)]
pub enum ScaffoldAction {
    /// Read the tip of a branch.
    ReadBranch(String),
    /// Read a commit, for its tree.
    ReadCommit(String),
    /// Make a tree of these entries on top of this base tree.
    MakeTree { base_tree: String, entries: Vec<TreeEntry> },
    /// Make a commit of this tree with this one parent and this message.
    MakeCommit { tree: String, parent: String, message: String },
    /// Move the branch to the commit, not forced.
    MoveBranch { branch: String, sha: String },
    /// Create the branch at the commit.
    CreateBranch { branch: String, sha: String },
    /// Ask whether the branch holds exactly the files.
    CheckHolds(String),
    /// Open a pull request of `head` into `base`.
    OpenPullRequest { title: String, head: String, base: String },
    /// Look for the open pull request of `head`.
    FindPullRequest(String),
    /// The write is done.
    Done(ScaffoldWrite),
    /// The write failed.
    Fail(String),
}

pub enum ScaffoldActionV {
    ReadBranch(Seq<char>),
    ReadCommit(Seq<char>),
    MakeTree { base_tree: Seq<char>, entries: Seq<TreeEntryV> },
    MakeCommit { tree: Seq<char>, parent: Seq<char>, message: Seq<char> },
    MoveBranch { branch: Seq<char>, sha: Seq<char> },
    CreateBranch { branch: Seq<char>, sha: Seq<char> },
    CheckHolds(Seq<char>),
    OpenPullRequest { title: Seq<char>, head: Seq<char>, base: Seq<char> },
    FindPullRequest(Seq<char>),
    Done(ScaffoldWriteV),
    Fail(Seq<char>),
}

impl View for ScaffoldAction {
    type V = ScaffoldActionV;

    open spec fn view(&self) -> ScaffoldActionV {
        match self {
            ScaffoldAction::ReadBranch(b) => ScaffoldActionV::ReadBranch(b@),
            ScaffoldAction::ReadCommit(s) => ScaffoldActionV::ReadCommit(s@),
            ScaffoldAction::MakeTree { base_tree, entries } => ScaffoldActionV::MakeTree {
                base_tree: base_tree@,
                entries: tree_entry_views(entries@),
            },
            ScaffoldAction::MakeCommit { tree, parent, message } => ScaffoldActionV::MakeCommit {
                tree: tree@,
                parent: parent@,
                message: message@,
            },
            ScaffoldAction::MoveBranch { branch, sha } => ScaffoldActionV::MoveBranch { branch: branch@, sha: sha@ },
            ScaffoldAction::CreateBranch { branch, sha } => ScaffoldActionV::CreateBranch { branch: branch@, sha: sha@ },
            ScaffoldAction::CheckHolds(b) => ScaffoldActionV::CheckHolds(b@),
            ScaffoldAction::OpenPullRequest { title, head, base } => ScaffoldActionV::OpenPullRequest {
                title: title@,
                head: head@,
                base: base@,
            },
            ScaffoldAction::FindPullRequest(h) => ScaffoldActionV::FindPullRequest(h@),
            ScaffoldAction::Done(w) => ScaffoldActionV::Done(w@),
            ScaffoldAction::Fail(e) => ScaffoldActionV::Fail(e@),
        }
    }
}

/// The state a write starts in: `files` committed under `message` on
/// `branch` off `base_branch`, and a pull request titled `pr_title` when one
/// is asked for.
pub fn scaffold_start(
    base_branch: &str,
    branch: &str,
    files: Vec<ScaffoldFile>,
    message: &str,
    pr_title: Option<&str>,
) -> (out: ScaffoldState)
    ensures
        out@ == (ScaffoldStateV {
            base_branch: base_branch@,
            branch: branch@,
            pr_title: match pr_title {
                Some(t) => Some(t@),
                None => None,
            },
            stage: ScaffoldStage::Start,
            base_sha: seq![],
            commit_sha: seq![],
            files: scaffold_file_views(files@),
            message: message@,
        }),
{
    ScaffoldState {
        base_branch: base_branch.to_owned(),
        branch: branch.to_owned(),
        pr_title: match pr_title {
            Some(t) => Some(t.to_owned()),
            None => None,
        },
        stage: ScaffoldStage::Start,
        base_sha: String::new(),
        commit_sha: String::new(),
        files,
        message: message.to_owned(),
    }
}

/// The commit lands on the base branch itself.
pub open spec fn onto_base(s: ScaffoldStateV) -> bool {
    s.branch == s.base_branch
}

pub open spec fn at(s: ScaffoldStateV, stage: ScaffoldStage) -> ScaffoldStateV {
    ScaffoldStateV { stage, ..s }
}

pub open spec fn fail(s: ScaffoldStateV, e: Seq<char>) -> (ScaffoldStateV, ScaffoldActionV) {
    (at(s, ScaffoldStage::Finished), ScaffoldActionV::Fail(e))
}

/// Once the branch points at the commit: a pull request when one was asked
/// for and the commit is not already on the base branch, else done.
pub open spec fn after_placed(s: ScaffoldStateV) -> (ScaffoldStateV, ScaffoldActionV) {
    match s.pr_title {
        Some(t) if !onto_base(s) => (
            at(s, ScaffoldStage::PullRequest),
            ScaffoldActionV::OpenPullRequest { title: t, head: s.branch, base: s.base_branch },
        ),
        _ => finish(s, None),
    }
}

pub open spec fn finish(s: ScaffoldStateV, pr: Option<Seq<char>>) -> (ScaffoldStateV, ScaffoldActionV) {
    (
        at(s, ScaffoldStage::Finished),
        ScaffoldActionV::Done(ScaffoldWriteV { branch: s.branch, commit_sha: s.commit_sha, pr_url: pr }),
    )
}

pub open spec fn quoted(before: Seq<char>, name: Seq<char>, after: Seq<char>) -> Seq<char> {
    before + "'"@ + name + "'"@ + after
}

pub open spec fn different_content_message(branch: Seq<char>) -> Seq<char> {
    quoted(
        "branch "@,
        branch,
        " already exists with different content; nothing was overwritten. Delete or rename it, or pick another branch"@,
    )
}

pub open spec fn out_of_turn_message() -> Seq<char> {
    "the repository's answer does not fit the step the write is at"@
}

/// One step of writing a scaffold: from the state and what the repository
/// answered, the next state and what to do next.
pub open spec fn scaffold_step(s: ScaffoldStateV, e: ScaffoldEventV) -> (ScaffoldStateV, ScaffoldActionV) {
    match (s.stage, e) {
        (ScaffoldStage::Start, ScaffoldEventV::Begin) => (
            at(s, ScaffoldStage::BaseTip),
            ScaffoldActionV::ReadBranch(s.base_branch),
        ),
        (ScaffoldStage::BaseTip, ScaffoldEventV::Answer(sha)) => (
            ScaffoldStateV { stage: ScaffoldStage::BaseTree, base_sha: sha, ..s },
            ScaffoldActionV::ReadCommit(sha),
        ),
        (ScaffoldStage::BaseTip, ScaffoldEventV::Failed(m)) => fail(s, quoted("read base branch "@, s.base_branch, ": "@ + m)),
        (ScaffoldStage::BaseTree, ScaffoldEventV::Answer(tree)) => (
            at(s, ScaffoldStage::NewTree),
            ScaffoldActionV::MakeTree { base_tree: tree, entries: tree_of(s.files) },
        ),
        (ScaffoldStage::NewTree, ScaffoldEventV::Answer(tree)) => (
            at(s, ScaffoldStage::NewCommit),
            ScaffoldActionV::MakeCommit { tree, parent: s.base_sha, message: s.message },
        ),
        (ScaffoldStage::NewCommit, ScaffoldEventV::Answer(c)) => if onto_base(s) {
            (
                ScaffoldStateV { stage: ScaffoldStage::Moved, commit_sha: c, ..s },
                ScaffoldActionV::MoveBranch { branch: s.branch, sha: c },
            )
        } else {
            (
                ScaffoldStateV { stage: ScaffoldStage::Created, commit_sha: c, ..s },
                ScaffoldActionV::CreateBranch { branch: s.branch, sha: c },
            )
        },
        (ScaffoldStage::Moved, ScaffoldEventV::Answer(_)) => after_placed(s),
        (ScaffoldStage::Moved, ScaffoldEventV::Failed(m)) => fail(
            s,
            quoted("advance "@, s.branch, " (did it move meanwhile?): "@ + m),
        ),
        (ScaffoldStage::Created, ScaffoldEventV::Answer(_)) => after_placed(s),
        (ScaffoldStage::Created, ScaffoldEventV::Failed(m)) => if contains(m, "Reference already exists"@) {
            (at(s, ScaffoldStage::Holds), ScaffoldActionV::CheckHolds(s.branch))
        } else {
            fail(s, quoted("create branch "@, s.branch, ": "@ + m))
        },
        (ScaffoldStage::Holds, ScaffoldEventV::Holds(true)) => (
            at(s, ScaffoldStage::ExistingTip),
            ScaffoldActionV::ReadBranch(s.branch),
        ),
        (ScaffoldStage::Holds, ScaffoldEventV::Holds(false)) => fail(s, different_content_message(s.branch)),
        (ScaffoldStage::ExistingTip, ScaffoldEventV::Answer(tip)) => after_placed(
            ScaffoldStateV { commit_sha: tip, ..s },
        ),
        (ScaffoldStage::ExistingTip, ScaffoldEventV::Failed(m)) => fail(
            s,
            quoted("read existing branch "@, s.branch, ": "@ + m),
        ),
        (ScaffoldStage::PullRequest, ScaffoldEventV::Answer(url)) => finish(s, Some(url)),
        (ScaffoldStage::PullRequest, ScaffoldEventV::Failed(m)) => if contains(
            m,
            "A pull request already exists"@,
        ) {
            (at(s, ScaffoldStage::OpenPullRequest), ScaffoldActionV::FindPullRequest(s.branch))
        } else {
            fail(s, m)
        },
        (ScaffoldStage::OpenPullRequest, ScaffoldEventV::Found(o)) => finish(s, o),
        (ScaffoldStage::Finished, _) => fail(s, out_of_turn_message()),
        (_, ScaffoldEventV::Failed(m)) => fail(s, m),
        _ => fail(s, out_of_turn_message()),
    }
}

fn tree_entries(files: &Vec<ScaffoldFile>) -> (out: Vec<TreeEntry>)
    ensures
        tree_entry_views(out@) == tree_of(scaffold_file_views(files@)),
{
    let ghost fv = scaffold_file_views(files@);
    let n = files.len();
    let mut out: Vec<TreeEntry> = Vec::new();
    for i in 0..n
        invariant
            n == files@.len(),
            fv == scaffold_file_views(files@),
            tree_entry_views(out@) == tree_of(fv.take(i as int)),
    {
        let e = TreeEntry {
            path: files[i].path.clone(),
            mode: "100644".to_owned(),
            kind: "blob".to_owned(),
            content: files[i].content.clone(),
        };
        let ghost before = tree_entry_views(out@);
        out.push(e);
        proof {
            assert(tree_entry_views(out@) =~= before.push(e@));
            assert(tree_of(fv.take(i + 1)) =~= tree_of(fv.take(i as int)).push(e@));
        }
    }
    proof {
        assert(fv.take(n as int) == fv);
    }
    out
}

fn quoted_exec(before: &str, name: &str, after: &str) -> (out: String)
    ensures
        out@ == quoted(before@, name@, after@),
{
    let mut v: Vec<char> = Vec::new();
    push_str(&mut v, before);
    push_str(&mut v, "'");
    push_str(&mut v, name);
    push_str(&mut v, "'");
    push_str(&mut v, after);
    string_of(&v)
}

fn then(a: &str, b: &str) -> (out: String)
    ensures
        out@ == a@ + b@,
{
    let mut v: Vec<char> = Vec::new();
    push_str(&mut v, a);
    push_str(&mut v, b);
    string_of(&v)
}

fn moved_to(s: ScaffoldState, stage: ScaffoldStage) -> (out: ScaffoldState)
    ensures
        out@ == at(s@, stage),
{
    ScaffoldState { stage, ..s }
}

fn failing(s: ScaffoldState, e: String) -> (out: (ScaffoldState, ScaffoldAction))
    ensures
        (out.0@, out.1@) == fail(s@, e@),
{
    (moved_to(s, ScaffoldStage::Finished), ScaffoldAction::Fail(e))
}

fn finishing(s: ScaffoldState, pr: Option<String>) -> (out: (ScaffoldState, ScaffoldAction))
    ensures
        (out.0@, out.1@) == finish(s@, opt_string_view(pr)),
{
    let w = ScaffoldWrite { branch: s.branch.clone(), commit_sha: s.commit_sha.clone(), pr_url: pr };
    (moved_to(s, ScaffoldStage::Finished), ScaffoldAction::Done(w))
}

fn placed(s: ScaffoldState) -> (out: (ScaffoldState, ScaffoldAction))
    ensures
        (out.0@, out.1@) == after_placed(s@),
{
    let onto = str_eq(s.branch.as_str(), s.base_branch.as_str());
    match &s.pr_title {
        Some(t) => {
            if !onto {
                let action = ScaffoldAction::OpenPullRequest {
                    title: t.clone(),
                    head: s.branch.clone(),
                    base: s.base_branch.clone(),
                };
                return (moved_to(s, ScaffoldStage::PullRequest), action);
            }
        },
        None => {},
    }
    finishing(s, None)
}

fn mentions_text(m: &String, needle: &str) -> (r: bool)
    ensures
        r == contains(m@, needle@),
{
    contains_exec(&chars_of(m.as_str()), &chars_of(needle))
}

/// One step of writing a scaffold into a repository: given where the write
/// stands and what the repository answered, the next state and the next
/// call to make. A branch that already exists holding exactly these files is
/// the answer, not a refusal; one holding anything else is left as it is.
pub fn scaffold_next(state: ScaffoldState, event: ScaffoldEvent) -> (out: (ScaffoldState, ScaffoldAction))
    ensures
        (out.0@, out.1@) == scaffold_step(state@, event@),
{
    let s = state;
    match (s.stage, event) {
        (ScaffoldStage::Start, ScaffoldEvent::Begin) => {
            let b = s.base_branch.clone();
            (moved_to(s, ScaffoldStage::BaseTip), ScaffoldAction::ReadBranch(b))
        },
        (ScaffoldStage::BaseTip, ScaffoldEvent::Answer(sha)) => {
            let a = ScaffoldAction::ReadCommit(sha.clone());
            (ScaffoldState { stage: ScaffoldStage::BaseTree, base_sha: sha, ..s }, a)
        },
        (ScaffoldStage::BaseTip, ScaffoldEvent::Failed(m)) => {
            let e = quoted_exec("read base branch ", s.base_branch.as_str(), then(": ", m.as_str()).as_str());
            failing(s, e)
        },
        (ScaffoldStage::BaseTree, ScaffoldEvent::Answer(tree)) => {
            let entries = tree_entries(&s.files);
            (moved_to(s, ScaffoldStage::NewTree), ScaffoldAction::MakeTree { base_tree: tree, entries })
        },
        (ScaffoldStage::NewTree, ScaffoldEvent::Answer(tree)) => {
            let parent = s.base_sha.clone();
            let message = s.message.clone();
            (moved_to(s, ScaffoldStage::NewCommit), ScaffoldAction::MakeCommit { tree, parent, message })
        },
        (ScaffoldStage::NewCommit, ScaffoldEvent::Answer(c)) => {
            let branch = s.branch.clone();
            if str_eq(s.branch.as_str(), s.base_branch.as_str()) {
                let a = ScaffoldAction::MoveBranch { branch, sha: c.clone() };
                (ScaffoldState { stage: ScaffoldStage::Moved, commit_sha: c, ..s }, a)
            } else {
                let a = ScaffoldAction::CreateBranch { branch, sha: c.clone() };
                (ScaffoldState { stage: ScaffoldStage::Created, commit_sha: c, ..s }, a)
            }
        },
        (ScaffoldStage::Moved, ScaffoldEvent::Answer(_)) => placed(s),
        (ScaffoldStage::Moved, ScaffoldEvent::Failed(m)) => {
            let e = quoted_exec("advance ", s.branch.as_str(), then(" (did it move meanwhile?): ", m.as_str()).as_str());
            failing(s, e)
        },
        (ScaffoldStage::Created, ScaffoldEvent::Answer(_)) => placed(s),
        (ScaffoldStage::Created, ScaffoldEvent::Failed(m)) => {
            if mentions_text(&m, "Reference already exists") {
                let b = s.branch.clone();
                (moved_to(s, ScaffoldStage::Holds), ScaffoldAction::CheckHolds(b))
            } else {
                let e = quoted_exec("create branch ", s.branch.as_str(), then(": ", m.as_str()).as_str());
                failing(s, e)
            }
        },
        (ScaffoldStage::Holds, ScaffoldEvent::Holds(holds)) => {
            if holds {
                let b = s.branch.clone();
                (moved_to(s, ScaffoldStage::ExistingTip), ScaffoldAction::ReadBranch(b))
            } else {
                let e = quoted_exec(
                    "branch ",
                    s.branch.as_str(),
                    " already exists with different content; nothing was overwritten. Delete or rename it, or pick another branch",
                );
                failing(s, e)
            }
        },
        (ScaffoldStage::ExistingTip, ScaffoldEvent::Answer(tip)) => placed(ScaffoldState { commit_sha: tip, ..s }),
        (ScaffoldStage::ExistingTip, ScaffoldEvent::Failed(m)) => {
            let e = quoted_exec("read existing branch ", s.branch.as_str(), then(": ", m.as_str()).as_str());
            failing(s, e)
        },
        (ScaffoldStage::PullRequest, ScaffoldEvent::Answer(url)) => finishing(s, Some(url)),
        (ScaffoldStage::PullRequest, ScaffoldEvent::Failed(m)) => {
            if mentions_text(&m, "A pull request already exists") {
                let b = s.branch.clone();
                (moved_to(s, ScaffoldStage::OpenPullRequest), ScaffoldAction::FindPullRequest(b))
            } else {
                failing(s, m)
            }
        },
        (ScaffoldStage::OpenPullRequest, ScaffoldEvent::Found(o)) => finishing(s, o),
        (ScaffoldStage::Finished, _) => failing(s, out_of_turn()),
        (_, ScaffoldEvent::Failed(m)) => failing(s, m),
        _ => failing(s, out_of_turn()),
    }
}

fn out_of_turn() -> (out: String)
    ensures
        out@ == out_of_turn_message(),
{
    "the repository's answer does not fit the step the write is at".to_owned()
}

/// Saving the same thing twice is not a failure: when creating the branch
/// finds it already there and it holds exactly these files, the write reads
/// that branch's tip and answers with it (then opens, or finds, the pull
/// request if one was asked for). When it holds anything else, the write
/// fails and nothing is moved.
pub proof fn law_a_second_save_returns_the_branch_already_there(
    s: ScaffoldStateV,
    m: Seq<char>,
    tip: Seq<char>,
)
    requires
        s.stage == ScaffoldStage::Created,
        contains(m, "Reference already exists"@),
    ensures
        ({
            let (s1, a1) = scaffold_step(s, ScaffoldEventV::Failed(m));
            let (s2, a2) = scaffold_step(s1, ScaffoldEventV::Holds(true));
            let (s3, a3) = scaffold_step(s2, ScaffoldEventV::Answer(tip));
            &&& a1 == ScaffoldActionV::CheckHolds(s.branch)
            &&& a2 == ScaffoldActionV::ReadBranch(s.branch)
            &&& (s.pr_title is None ==> a3 == ScaffoldActionV::Done(
                ScaffoldWriteV { branch: s.branch, commit_sha: tip, pr_url: None },
            ))
            &&& (s.pr_title is Some && !onto_base(s) ==> s3.stage == ScaffoldStage::PullRequest && s3.commit_sha
                == tip)
        }),
        ({
            let (s1, a1) = scaffold_step(s, ScaffoldEventV::Failed(m));
            let (s2, a2) = scaffold_step(s1, ScaffoldEventV::Holds(false));
            a2 == ScaffoldActionV::Fail(different_content_message(s.branch)) && s2.stage == ScaffoldStage::Finished
        }),
{
}

/// A write onto the base branch moves that branch, creates none, and asks
/// for no pull request.
pub proof fn law_a_write_onto_the_base_branch_moves_it(s: ScaffoldStateV, c: Seq<char>, ok: Seq<char>)
    requires
        s.stage == ScaffoldStage::NewCommit,
        onto_base(s),
    ensures
        ({
            let (s1, a1) = scaffold_step(s, ScaffoldEventV::Answer(c));
            let (s2, a2) = scaffold_step(s1, ScaffoldEventV::Answer(ok));
            &&& a1 == ScaffoldActionV::MoveBranch { branch: s.branch, sha: c }
            &&& a2 == ScaffoldActionV::Done(ScaffoldWriteV { branch: s.branch, commit_sha: c, pr_url: None })
        }),
{
}

/// A starter gear to write.
#[derive(Debug, Clone)]
pub struct Scaffold {
    pub slug: String,
    pub app_title: String,
    pub problem: String,
    pub origin: String,
    pub parent_dir: String,
    /// Open a pull request rather than committing to the base branch.
    pub open_pr: bool,
}

/// The text with its whitespace taken out.
pub open spec fn without_ws(s: Seq<char>) -> Seq<char>
    decreases s.len(),
{
    if s.len() == 0 {
        seq![]
    } else if is_ws(s.last()) {
        without_ws(s.drop_last())
    } else {
        without_ws(s.drop_last()).push(s.last())
    }
}

/// Whether a file's content as the repository serves it (base64, wrapped
/// over lines) is exactly `expected`; `None` when it is not base64.
pub open spec fn content_match_of(found: Seq<char>, expected: Seq<char>) -> Option<bool> {
    match base64_decoded(encode_utf8(without_ws(found))) {
        Some(bytes) => Some(bytes == encode_utf8(expected)),
        None => None,
    }
}

pub open spec fn undecodable_message(path: Seq<char>, branch: Seq<char>) -> Seq<char> {
    "decode "@ + path + " on '"@ + branch + "': not valid base64"@
}

/// Whether `branch` already holds every one of `files`, byte for byte, from
/// what the repository served for each (`None` where it served nothing). The
/// files are looked at in order: the first missing or different one makes
/// the answer `false`; one that is not base64 is an error.
pub open spec fn branch_holds_of(
    found: Seq<Option<Seq<char>>>,
    files: Seq<(Seq<char>, Seq<char>)>,
    branch: Seq<char>,
) -> Result<bool, Seq<char>>
    decreases files.len(),
{
    if files.len() == 0 || found.len() == 0 {
        Ok(true)
    } else {
        match found[0] {
            None => Ok(false),
            Some(t) => match content_match_of(t, files[0].1) {
                None => Err(undecodable_message(files[0].0, branch)),
                Some(false) => Ok(false),
                Some(true) => branch_holds_of(found.drop_first(), files.drop_first(), branch),
            },
        }
    }
}

fn without_ws_exec(s: &str) -> (out: String)
    ensures
        out@ == without_ws(s@),
{
    let v = chars_of(s);
    let n = v.len();
    let mut out: Vec<char> = Vec::new();
    for i in 0..n
        invariant
            n == v@.len(),
            v@ == s@,
            out@ == without_ws(v@.take(i as int)),
    {
        proof {
            assert(v@.take(i + 1).drop_last() == v@.take(i as int));
            assert(v@.take(i + 1).last() == v@[i as int]);
        }
        if !is_ws_char(v[i]) {
            out.push(v[i]);
        }
    }
    proof {
        assert(v@.take(n as int) == v@);
    }
    string_of(&out)
}

fn bytes_equal(a: &[u8], b: &[u8]) -> (r: bool)
    ensures
        r == (a@ == b@),
{
    if a.len() != b.len() {
        return false;
    }
    let n = a.len();
    for i in 0..n
        invariant
            n == a@.len(),
            n == b@.len(),
            forall|j: int| 0 <= j < i ==> a@[j] == b@[j],
    {
        if a[i] != b[i] {
            return false;
        }
    }
    assert(a@ =~= b@);
    true
}

/// Whether a file's content as the repository serves it — base64, which
/// GitHub wraps over lines — is exactly `expected`; `None` when it is not
/// base64.
pub fn content_matches(found: &str, expected: &str) -> (r: Option<bool>)
    ensures
        r == content_match_of(found@, expected@),
{
    let packed = without_ws_exec(found);
    match b64_decode(packed.as_str()) {
        Some(bytes) => Some(bytes_equal(bytes.as_slice(), expected.as_bytes())),
        None => None,
    }
}

/// Whether `branch` already holds every one of `files`, byte for byte,
/// given what the repository served for each file in turn.
pub fn branch_holds(found: &[Option<String>], files: &[ScaffoldFile], branch: &str) -> (r: Result<bool, String>)
    ensures
        match r {
            Ok(b) => branch_holds_of(found@.map_values(|o: Option<String>| opt_string_view(o)), scaffold_file_views(files@), branch@)
                == Ok::<bool, Seq<char>>(b),
            Err(e) => branch_holds_of(found@.map_values(|o: Option<String>| opt_string_view(o)), scaffold_file_views(files@), branch@)
                == Err::<bool, Seq<char>>(e@),
        },
{
    let ghost fo = found@.map_values(|o: Option<String>| opt_string_view(o));
    let ghost fs = scaffold_file_views(files@);
    let n = if found.len() < files.len() { found.len() } else { files.len() };
    let mut i: usize = 0;
    proof {
        assert(fo.skip(0) == fo);
        assert(fs.skip(0) == fs);
    }
    while i < n
        invariant
            n <= found@.len(),
            n <= files@.len(),
            n == found@.len() || n == files@.len(),
            i <= n,
            fo == found@.map_values(|o: Option<String>| opt_string_view(o)),
            fs == scaffold_file_views(files@),
            branch_holds_of(fo, fs, branch@) == branch_holds_of(fo.skip(i as int), fs.skip(i as int), branch@),
        decreases n - i,
    {
        proof {
            assert(fo.skip(i as int)[0] == opt_string_view(found@[i as int]));
            assert(fs.skip(i as int)[0] == files@[i as int]@);
            assert(fo.skip(i as int).drop_first() == fo.skip(i + 1));
            assert(fs.skip(i as int).drop_first() == fs.skip(i + 1));
        }
        match &found[i] {
            None => return Ok(false),
            Some(t) => match content_matches(t.as_str(), files[i].content.as_str()) {
                None => {
                    let mut m: Vec<char> = Vec::new();
                    push_str(&mut m, "decode ");
                    push_str(&mut m, files[i].path.as_str());
                    push_str(&mut m, " on '");
                    push_str(&mut m, branch);
                    push_str(&mut m, "': not valid base64");
                    return Err(string_of(&m));
                },
                Some(false) => return Ok(false),
                Some(true) => {},
            },
        }
        i = i + 1;
    }
    proof {
        assert(fo.skip(i as int).len() == 0 || fs.skip(i as int).len() == 0);
    }
    Ok(true)
}

} // verus!
