//! The conversation a repository carries in its own files.
//!
//! Studio's IDE writes comment threads beside the document they are anchored
//! to, as append-only per-author logs committed with the branch:
//!
//! ```text
//! .studio/comments/docs/prd.md/oidc-sub-1.jsonl   one party's ops
//! .studio/comments/docs/prd.md/oidc-sub-2.jsonl   another party's
//! .studio/comments/docs/prd.md.json               the legacy whole-file sidecar
//! ```
//!
//! The sync already walks the whole repository with every file's text in
//! hand, so the count of open and resolved threads per document, and who an
//! open thread is waiting on, is taken here. Nothing keeps a message, an
//! author's words or a quote: the sidecars stay the record.
//!
//! The ordering rules are the part worth guarding: a total order over
//! (timestamp, author key, file, line), threads created in a first pass so an
//! op cannot be orphaned by a millisecond of clock skew, and tombstones
//! applied last.

use vstd::prelude::*;

use crate::text::string_views;
use vstd::string::StrSliceExecFns;

use crate::json::{json_array, json_bool, json_get, json_parsed, json_str, str_at, Json};
use crate::numbers::{decimal, decimal_of};
use crate::text::{
    chars_of, ends_with, starts_with, ends_with_exec, opt_view, push_all, push_str, seq_lt, slice_of,
    split_char, split_char_exec, str_eq, string_of, strip_prefix, strip_prefix_exec, strip_suffix,
    strip_suffix_exec, trim, trim_chars, vec_views,
};

verus! {

/// Where the IDE keeps them. A path outside this prefix is not a comment log.
pub const SIDECAR_DIR: &'static str = ".studio/comments/";

/// How many people the repository node names, most waited-on first.
pub const MAX_WAITING: usize = 50;

/// What a document's conversation amounts to.
#[derive(Debug, Clone, Copy, PartialEq, Eq, Structural)]
pub struct ThreadCounts {
    /// Threads still open: not resolved, not deleted, and with something
    /// left in them after retractions.
    pub open: usize,
    /// Threads someone has settled.
    pub resolved: usize,
}

/// One person, and what this repository is waiting on them for.
#[derive(Debug, Clone, PartialEq, Eq)]
pub struct Waiting {
    /// The author record's id, `oidc:<subject>` for a signed-in person.
    pub id: String,
    pub name: String,
    /// Open threads this person is in where the last word is somebody else's.
    pub threads: usize,
}

/// Everything one repository's sidecars amount to.
#[derive(Debug)]
pub struct RepositoryThreads {
    /// Per document, keyed by the document's repo-relative path, each
    /// document once, ascending by path.
    pub documents: Vec<(String, ThreadCounts)>,
    /// Per person, most waited-on first. Only people the logs actually name.
    pub waiting: Vec<Waiting>,
}

// ── which document a sidecar belongs to ──────────────────────────────────────

/// The position of the last `c` in `s`.
pub open spec fn rfind_char(s: Seq<char>, c: char) -> Option<int>
    decreases s.len(),
{
    if s.len() == 0 {
        None
    } else if s.last() == c {
        Some(s.len() - 1)
    } else {
        rfind_char(s.drop_last(), c)
    }
}

/// Which document a sidecar path belongs to, and whose log it is (`None`
/// for the legacy whole-file sidecar). Exactly one trailing `.json` is
/// stripped, so a document called `data.json` keeps its name.
pub open spec fn sidecar_of(path: Seq<char>) -> Option<(Seq<char>, Option<Seq<char>>)> {
    match strip_prefix(path, SIDECAR_DIR@) {
        None => None,
        Some(rest) => match strip_suffix(rest, ".jsonl"@) {
            Some(stem) => match rfind_char(stem, '/') {
                Some(i) => if i == 0 {
                    None
                } else {
                    Some((stem.take(i), Some(stem.skip(i + 1))))
                },
                None => None,
            },
            None => match strip_suffix(rest, ".json"@) {
                Some(doc) => if doc.len() == 0 || ends_with(doc, "/"@) {
                    None
                } else {
                    Some((doc, None))
                },
                None => None,
            },
        },
    }
}

fn rfind_char_exec(v: &Vec<char>, c: char) -> (out: Option<usize>)
    ensures
        match out {
            Some(i) => rfind_char(v@, c) == Some(i as int) && i < v@.len(),
            None => rfind_char(v@, c) is None,
        },
{
    let mut i = v.len();
    proof {
        assert(v@.take(i as int) == v@);
    }
    while i > 0
        invariant
            i <= v@.len(),
            rfind_char(v@, c) == rfind_char(v@.take(i as int), c),
        decreases i,
    {
        proof {
            assert(v@.take(i as int).drop_last() == v@.take(i - 1));
        }
        if v[i - 1] == c {
            return Some(i - 1);
        }
        i = i - 1;
    }
    None
}

fn sidecar_of_exec(path: &str) -> (out: Option<(String, Option<String>)>)
    ensures
        match out {
            Some((d, p)) => sidecar_of(path@) == Some((d@, opt_view(p))),
            None => sidecar_of(path@) is None,
        },
{
    let rest = match strip_prefix_exec(&chars_of(path), SIDECAR_DIR) {
        Some(r) => r,
        None => return None,
    };
    match strip_suffix_exec(&rest, ".jsonl") {
        Some(stem) => {
            let sn = stem.len();
            match rfind_char_exec(&stem, '/') {
                Some(i) => {
                    if i == 0 {
                        return None;
                    }
                    let doc = slice_of(&stem, 0, i);
                    let party = slice_of(&stem, i + 1, sn);
                    proof {
                        assert(stem@.take(i as int) == stem@.subrange(0, i as int));
                        assert(stem@.skip(i + 1) == stem@.subrange(i + 1, sn as int));
                    }
                    Some((string_of(&doc), Some(string_of(&party))))
                },
                None => None,
            }
        },
        None => match strip_suffix_exec(&rest, ".json") {
            Some(doc) => {
                if doc.len() == 0 || ends_with_exec(&doc, "/") {
                    None
                } else {
                    Some((string_of(&doc), None))
                }
            },
            None => None,
        },
    }
}

// ── grouping the sidecars by document ────────────────────────────────────────

/// Everything one document's sidecars say, before folding: the legacy
/// sidecar's text (the last one handed over) and each log as (party, text),
/// in the order they were handed over.
pub struct SidecarsV {
    pub document: Seq<char>,
    pub legacy: Option<Seq<char>>,
    pub logs: Seq<(Seq<char>, Seq<char>)>,
}

pub open spec fn group_index(gs: Seq<SidecarsV>, doc: Seq<char>, i: nat) -> Option<int>
    decreases gs.len() - i,
{
    if i >= gs.len() {
        None
    } else if gs[i as int].document == doc {
        Some(i as int)
    } else {
        group_index(gs, doc, i + 1)
    }
}

/// One file read into the groups; anything that is not a sidecar is
/// ignored.
pub open spec fn add_file(gs: Seq<SidecarsV>, path: Seq<char>, text: Seq<char>) -> Seq<SidecarsV> {
    match sidecar_of(path) {
        None => gs,
        Some((doc, kind)) => {
            let g = match group_index(gs, doc, 0) {
                Some(i) => gs[i],
                None => SidecarsV { document: doc, legacy: None, logs: seq![] },
            };
            let g2 = match kind {
                Some(party) => SidecarsV { logs: g.logs.push((party, text)), ..g },
                None => SidecarsV { legacy: Some(text), ..g },
            };
            match group_index(gs, doc, 0) {
                Some(i) => gs.update(i, g2),
                None => gs.push(g2),
            }
        },
    }
}

pub open spec fn file_views(files: Seq<(&str, &str)>) -> Seq<(Seq<char>, Seq<char>)> {
    files.map_values(|f: (&str, &str)| (f.0@, f.1@))
}

/// The sidecars among a repository's files, grouped by document, documents
/// in the order their first sidecar appears.
pub open spec fn group_sidecars(files: Seq<(Seq<char>, Seq<char>)>) -> Seq<SidecarsV>
    decreases files.len(),
{
    if files.len() == 0 {
        seq![]
    } else {
        add_file(group_sidecars(files.drop_last()), files.last().0, files.last().1)
    }
}

struct Group {
    document: String,
    legacy: Option<String>,
    logs: Vec<(String, String)>,
}

impl View for Group {
    type V = SidecarsV;

    closed spec fn view(&self) -> SidecarsV {
        SidecarsV {
            document: self.document@,
            legacy: opt_view(self.legacy),
            logs: self.logs@.map_values(|l: (String, String)| (l.0@, l.1@)),
        }
    }
}

spec fn group_views(v: Seq<Group>) -> Seq<SidecarsV> {
    v.map_values(|g: Group| g@)
}

fn find_group(gs: &Vec<Group>, doc: &String) -> (out: Option<usize>)
    ensures
        match out {
            Some(i) => group_index(group_views(gs@), doc@, 0) == Some(i as int) && i < gs@.len(),
            None => group_index(group_views(gs@), doc@, 0) is None,
        },
{
    let n = gs.len();
    let mut i: usize = 0;
    while i < n
        invariant
            n == gs@.len(),
            i <= n,
            group_index(group_views(gs@), doc@, 0) == group_index(group_views(gs@), doc@, i as nat),
        decreases n - i,
    {
        proof {
            assert(group_views(gs@)[i as int] == gs@[i as int]@);
        }
        if str_eq(gs[i].document.as_str(), doc.as_str()) {
            return Some(i);
        }
        i = i + 1;
    }
    None
}

fn read_file(gs: &mut Vec<Group>, path: &str, text: &str)
    ensures
        group_views(final(gs)@) == add_file(group_views(old(gs)@), path@, text@),
{
    let (doc, kind) = match sidecar_of_exec(path) {
        Some(x) => x,
        None => return,
    };
    let ghost before = group_views(gs@);
    let ghost raw = gs@;
    match find_group(gs, &doc) {
        Some(i) => {
            let mut g = gs.remove(i);
            proof {
                assert(g@ == before[i as int]);
            }
            let ghost g0 = g@;
            match kind {
                Some(party) => {
                    let ghost l0 = g.logs@;
                    g.logs.push((party, text.to_owned()));
                    proof {
                        assert(g.logs@.map_values(|l: (String, String)| (l.0@, l.1@)) =~= l0.map_values(|l: (String, String)| (l.0@, l.1@)).push((party@, text@)));
                    }
                },
                None => {
                    g.legacy = Some(text.to_owned());
                },
            }
            let ghost g1 = g;
            gs.insert(i, g);
            proof {
                assert(gs@ =~= raw.update(i as int, g1));
                assert(group_views(gs@) =~= before.update(i as int, g1@));
            }
        },
        None => {
            let mut g = Group { document: doc, legacy: None, logs: Vec::new() };
            proof {
                assert(g.logs@.map_values(|l: (String, String)| (l.0@, l.1@)) =~= Seq::<(Seq<char>, Seq<char>)>::empty());
            }
            match kind {
                Some(party) => {
                    g.logs.push((party, text.to_owned()));
                    proof {
                        assert(g.logs@.map_values(|l: (String, String)| (l.0@, l.1@)) =~= seq![(party@, text@)]);
                    }
                },
                None => {
                    g.legacy = Some(text.to_owned());
                },
            }
            let ghost g1 = g;
            gs.push(g);
            proof {
                assert(group_views(gs@) =~= before.push(g1@));
            }
        },
    }
}

// ── the fold's values ────────────────────────────────────────────────────────

/// One message as the fold needs it: an id to retract by, and an author to
/// count by.
pub struct MessageV {
    pub id: Seq<char>,
    /// The author record's `id`; absent for a message written before
    /// identity existed.
    pub author: Option<Seq<char>>,
    /// The display name, kept only so a person can be named once counted.
    pub name: Option<Seq<char>>,
}

/// A thread while it is being folded.
pub struct ThreadV {
    pub id: Seq<char>,
    pub resolved: bool,
    pub messages: Seq<MessageV>,
}

/// One line of one party's log, placed in the total order.
pub struct EntryV {
    pub at: Seq<char>,
    pub party: Seq<char>,
    pub file: Seq<char>,
    pub line: nat,
    pub op: Json,
}

/// A person being counted: their id, the newest name they wrote under, and
/// the threads waiting on them.
pub struct WaitV {
    pub id: Seq<char>,
    pub name: Seq<char>,
    pub threads: nat,
}

/// A message's id when its op names none: positional and stable, so two
/// clients that never met agree on which message a retraction names.
pub open spec fn derived_message_id(thread: Seq<char>, index: nat) -> Seq<char> {
    thread + "-m"@ + decimal(index)
}

/// A string field of the op's author record.
pub open spec fn by_field(op: Json, key: Seq<char>) -> Option<Seq<char>> {
    match json_get(op, "by"@) {
        Some(b) => str_at(b, key),
        None => None,
    }
}

/// One message, as the fold needs it.
pub open spec fn message_of(op: Json, thread: Seq<char>, index: nat) -> MessageV {
    MessageV {
        id: match str_at(op, "message"@) {
            Some(m) => m,
            None => derived_message_id(thread, index),
        },
        author: by_field(op, "id"@),
        name: match by_field(op, "name"@) {
            Some(n) => if n.len() > 0 { Some(n) } else { None },
            None => None,
        },
    }
}

pub open spec fn thread_index(ts: Seq<ThreadV>, id: Seq<char>, i: nat) -> Option<int>
    decreases ts.len() - i,
{
    if i >= ts.len() {
        None
    } else if ts[i as int].id == id {
        Some(i as int)
    } else {
        thread_index(ts, id, i + 1)
    }
}

/// A thread put in place of the one with its id, or added.
pub open spec fn upsert(ts: Seq<ThreadV>, t: ThreadV) -> Seq<ThreadV> {
    match thread_index(ts, t.id, 0) {
        Some(i) => ts.update(i, t),
        None => ts.push(t),
    }
}

pub open spec fn legacy_messages(value: Json, id: Seq<char>) -> Seq<MessageV> {
    match json_get(value, "messages"@) {
        Some(m) => match json_array(m) {
            Some(ms) => Seq::new(ms.len(), |k: int| message_of(ms[k], id, k as nat)),
            None => seq![],
        },
        None => seq![],
    }
}

/// A thread of the legacy sidecar; one without an id is skipped.
pub open spec fn legacy_thread(value: Json) -> Option<ThreadV> {
    match str_at(value, "id"@) {
        None => None,
        Some(id) => Some(
            ThreadV {
                id,
                resolved: match json_get(value, "resolved"@) {
                    Some(r) => match json_bool(r) {
                        Some(b) => b,
                        None => false,
                    },
                    None => false,
                },
                messages: legacy_messages(value, id),
            },
        ),
    }
}

pub open spec fn legacy_fold(list: Seq<Json>) -> Seq<ThreadV>
    decreases list.len(),
{
    if list.len() == 0 {
        seq![]
    } else {
        match legacy_thread(list.last()) {
            Some(t) => upsert(legacy_fold(list.drop_last()), t),
            None => legacy_fold(list.drop_last()),
        }
    }
}

/// The base layer: the threads committed in the legacy sidecar, read as a
/// starting state.
pub open spec fn legacy_threads(text: Option<Seq<char>>) -> Seq<ThreadV> {
    match text {
        None => seq![],
        Some(t) => match json_parsed(t) {
            Some(root) => match json_get(root, "threads"@) {
                Some(l) => match json_array(l) {
                    Some(list) => legacy_fold(list),
                    None => seq![],
                },
                None => seq![],
            },
            None => seq![],
        },
    }
}

/// `str::lines`: the text split at each newline, a final empty piece
/// dropped. (A `\r` before the newline is left on; every line is trimmed
/// before it is read, which removes it.)
pub open spec fn log_lines(text: Seq<char>) -> Seq<Seq<char>> {
    let ps = split_char(text, '\n');
    if ps.last().len() == 0 {
        ps.drop_last()
    } else {
        ps
    }
}

/// A line's op placed in the order: its time, the author key it carries
/// (the file's party when it carries none), the file, and the line.
pub open spec fn entry_of(party: Seq<char>, k: nat, op: Json) -> EntryV {
    EntryV {
        at: match str_at(op, "at"@) {
            Some(a) => a,
            None => seq![],
        },
        party: match by_field(op, "key"@) {
            Some(p) => p,
            None => party,
        },
        file: party,
        line: k,
        op,
    }
}

/// Every line of one log that parses to a JSON object; a line that does
/// not costs that line and nothing more.
pub open spec fn log_entries(party: Seq<char>, lines: Seq<Seq<char>>) -> Seq<EntryV>
    decreases lines.len(),
{
    if lines.len() == 0 {
        seq![]
    } else {
        let rest = log_entries(party, lines.drop_last());
        match json_parsed(trim(lines.last())) {
            Some(op) => if op is Object {
                rest.push(entry_of(party, (lines.len() - 1) as nat, op))
            } else {
                rest
            },
            None => rest,
        }
    }
}

pub open spec fn all_entries(logs: Seq<(Seq<char>, Seq<char>)>) -> Seq<EntryV>
    decreases logs.len(),
{
    if logs.len() == 0 {
        seq![]
    } else {
        all_entries(logs.drop_last()) + log_entries(logs.last().0, log_lines(logs.last().1))
    }
}

/// The total order: time, then author key, then file, then line.
pub open spec fn entry_before(a: EntryV, b: EntryV) -> bool {
    if a.at != b.at {
        seq_lt(a.at, b.at)
    } else if a.party != b.party {
        seq_lt(a.party, b.party)
    } else if a.file != b.file {
        seq_lt(a.file, b.file)
    } else {
        a.line < b.line
    }
}

pub open spec fn entry_insert_at(s: Seq<EntryV>, x: EntryV) -> int
    decreases s.len(),
{
    if s.len() == 0 {
        0
    } else if entry_before(x, s[0]) {
        0
    } else {
        1 + entry_insert_at(s.drop_first(), x)
    }
}

/// A stable sort by [`entry_before`].
pub open spec fn sort_entries(s: Seq<EntryV>) -> Seq<EntryV>
    decreases s.len(),
{
    if s.len() == 0 {
        s
    } else {
        let sorted = sort_entries(s.drop_last());
        sorted.insert(entry_insert_at(sorted, s.last()), s.last())
    }
}

/// The op's kind, empty when it names none.
pub open spec fn op_kind(op: Json) -> Seq<char> {
    match str_at(op, "op"@) {
        Some(k) => k,
        None => seq![],
    }
}

pub open spec fn has_body(op: Json) -> bool {
    match str_at(op, "body"@) {
        Some(b) => b.len() > 0,
        None => false,
    }
}

pub open spec fn with_message(t: ThreadV, m: MessageV) -> ThreadV {
    ThreadV { id: t.id, resolved: t.resolved, messages: t.messages.push(m) }
}

pub open spec fn with_resolved(t: ThreadV, resolved: bool) -> ThreadV {
    ThreadV { id: t.id, resolved, messages: t.messages }
}

/// Phase 1, one op: an `open` creates its thread when it is new, and adds
/// the thread's first message when it has a body.
pub open spec fn open_step(ts: Seq<ThreadV>, op: Json) -> Seq<ThreadV> {
    if op_kind(op) != "open"@ {
        ts
    } else {
        match str_at(op, "thread"@) {
            None => ts,
            Some(id) => {
                let (ts1, i) = match thread_index(ts, id, 0) {
                    Some(i) => (ts, i),
                    None => (ts.push(ThreadV { id, resolved: false, messages: seq![] }), ts.len() as int),
                };
                if has_body(op) {
                    ts1.update(i, with_message(ts1[i], message_of(op, id, ts1[i].messages.len())))
                } else {
                    ts1
                }
            },
        }
    }
}

/// Phase 1: every `open`, in order, so no later op can be orphaned by
/// clock skew.
pub open spec fn open_pass(ts: Seq<ThreadV>, es: Seq<EntryV>) -> Seq<ThreadV>
    decreases es.len(),
{
    if es.len() == 0 {
        ts
    } else {
        open_step(open_pass(ts, es.drop_last()), es.last().op)
    }
}

/// Threads, and the tombstones collected for them: deleted thread ids and
/// retracted message ids.
pub struct SaidV {
    pub threads: Seq<ThreadV>,
    pub deleted: Seq<Seq<char>>,
    pub retracted: Seq<Seq<char>>,
}

pub open spec fn retract(st: SaidV, op: Json) -> SaidV {
    match str_at(op, "message"@) {
        Some(m) => SaidV { retracted: st.retracted.push(m), ..st },
        None => st,
    }
}

/// Phase 2, one op: everything said about a thread. For a thread this
/// fold has not seen, its tombstones are still collected.
pub open spec fn say_step(st: SaidV, op: Json) -> SaidV {
    let k = op_kind(op);
    if k == "open"@ {
        st
    } else {
        match str_at(op, "thread"@) {
            None => st,
            Some(id) => match thread_index(st.threads, id, 0) {
                None => if k == "delete"@ {
                    SaidV { deleted: st.deleted.push(id), ..st }
                } else if k == "retract"@ {
                    retract(st, op)
                } else {
                    st
                },
                Some(i) => {
                    let t = st.threads[i];
                    if k == "reply"@ {
                        SaidV { threads: st.threads.update(i, with_message(t, message_of(op, id, t.messages.len()))), ..st }
                    } else if k == "resolve"@ {
                        SaidV { threads: st.threads.update(i, with_resolved(t, true)), ..st }
                    } else if k == "reopen"@ {
                        SaidV { threads: st.threads.update(i, with_resolved(t, false)), ..st }
                    } else if k == "retract"@ {
                        retract(st, op)
                    } else if k == "delete"@ {
                        SaidV { deleted: st.deleted.push(id), ..st }
                    } else {
                        st
                    }
                },
            },
        }
    }
}

pub open spec fn say_pass(st: SaidV, es: Seq<EntryV>) -> SaidV
    decreases es.len(),
{
    if es.len() == 0 {
        st
    } else {
        say_step(say_pass(st, es.drop_last()), es.last().op)
    }
}

/// The messages a retraction has not removed.
pub open spec fn kept(ms: Seq<MessageV>, retracted: Seq<Seq<char>>) -> Seq<MessageV>
    decreases ms.len(),
{
    if ms.len() == 0 {
        seq![]
    } else if retracted.contains(ms.last().id) {
        kept(ms.drop_last(), retracted)
    } else {
        kept(ms.drop_last(), retracted).push(ms.last())
    }
}

pub open spec fn wait_index(w: Seq<WaitV>, id: Seq<char>, i: nat) -> Option<int>
    decreases w.len() - i,
{
    if i >= w.len() {
        None
    } else if w[i as int].id == id {
        Some(i as int)
    } else {
        wait_index(w, id, i + 1)
    }
}

/// One more thread waiting on `id`; the newest name they wrote under wins.
pub open spec fn bump(w: Seq<WaitV>, id: Seq<char>, name: Option<Seq<char>>) -> Seq<WaitV> {
    match wait_index(w, id, 0) {
        Some(i) => w.update(
            i,
            WaitV {
                id: w[i].id,
                name: match name {
                    Some(n) => n,
                    None => w[i].name,
                },
                threads: if w[i].threads < usize::MAX { w[i].threads + 1 } else { w[i].threads },
            },
        ),
        None => w.push(
            WaitV {
                id,
                name: match name {
                    Some(n) => n,
                    None => seq![],
                },
                threads: 1,
            },
        ),
    }
}

/// Crediting in message order: (the authors credited so far, the tally).
pub open spec fn credit_pass(ms: Seq<MessageV>, last: Seq<char>, w: Seq<WaitV>) -> (Seq<Seq<char>>, Seq<WaitV>)
    decreases ms.len(),
{
    if ms.len() == 0 {
        (seq![], w)
    } else {
        let (credited, w1) = credit_pass(ms.drop_last(), last, w);
        let m = ms.last();
        match m.author {
            None => (credited, w1),
            Some(a) => if a == last || credited.contains(a) {
                (credited, w1)
            } else {
                (credited.push(a), bump(w1, a, m.name))
            },
        }
    }
}

/// Who an open thread is waiting on: everybody in it except whoever spoke
/// last, each once. A thread whose last word carries no author waits on
/// nobody.
pub open spec fn credit(ms: Seq<MessageV>, w: Seq<WaitV>) -> Seq<WaitV> {
    if ms.len() == 0 {
        w
    } else {
        match ms.last().author {
            None => w,
            Some(last) => credit_pass(ms, last, w).1,
        }
    }
}

/// Counting so far: open, resolved, and the tally of who is waited on.
pub struct CountV {
    pub open: nat,
    pub resolved: nat,
    pub waiting: Seq<WaitV>,
}

/// Phase 3, one thread: a deleted thread is gone, one emptied by
/// retractions is not a thread, a resolved one counts as resolved, an open
/// one as open and credits who it waits on.
pub open spec fn count_step(c: CountV, t: ThreadV, deleted: Seq<Seq<char>>, retracted: Seq<Seq<char>>) -> CountV {
    if deleted.contains(t.id) {
        c
    } else {
        let left = kept(t.messages, retracted);
        if left.len() == 0 {
            c
        } else if t.resolved {
            CountV { resolved: c.resolved + 1, ..c }
        } else {
            CountV { open: c.open + 1, waiting: credit(left, c.waiting), ..c }
        }
    }
}

pub open spec fn count_pass(c: CountV, ts: Seq<ThreadV>, deleted: Seq<Seq<char>>, retracted: Seq<Seq<char>>) -> CountV
    decreases ts.len(),
{
    if ts.len() == 0 {
        c
    } else {
        count_step(count_pass(c, ts.drop_last(), deleted, retracted), ts.last(), deleted, retracted)
    }
}

/// One document's conversation, counted on top of the tally so far.
pub open spec fn fold_document(g: SidecarsV, waiting: Seq<WaitV>) -> CountV {
    let es = sort_entries(all_entries(g.logs));
    let opened = open_pass(legacy_threads(g.legacy), es);
    let said = say_pass(SaidV { threads: opened, deleted: seq![], retracted: seq![] }, es);
    count_pass(CountV { open: 0, resolved: 0, waiting }, said.threads, said.deleted, said.retracted)
}

/// The repository so far: the documents with a conversation, and the tally.
pub struct RepoV {
    pub documents: Seq<(Seq<char>, (nat, nat))>,
    pub waiting: Seq<WaitV>,
}

/// One document counted; a document whose threads have all gone produces no
/// entry, the same as never having been commented on.
pub open spec fn repo_step(r: RepoV, g: SidecarsV) -> RepoV {
    let c = fold_document(g, r.waiting);
    RepoV {
        documents: if c.open + c.resolved > 0 {
            r.documents.push((g.document, (c.open, c.resolved)))
        } else {
            r.documents
        },
        waiting: c.waiting,
    }
}

pub open spec fn repo_pass(gs: Seq<SidecarsV>) -> RepoV
    decreases gs.len(),
{
    if gs.len() == 0 {
        RepoV { documents: seq![], waiting: seq![] }
    } else {
        repo_step(repo_pass(gs.drop_last()), gs.last())
    }
}

/// Most waited-on first, and by id after that.
pub open spec fn wait_before(a: WaitV, b: WaitV) -> bool {
    a.threads > b.threads || (a.threads == b.threads && seq_lt(a.id, b.id))
}

pub open spec fn wait_insert_at(s: Seq<WaitV>, x: WaitV) -> int
    decreases s.len(),
{
    if s.len() == 0 {
        0
    } else if wait_before(x, s[0]) {
        0
    } else {
        1 + wait_insert_at(s.drop_first(), x)
    }
}

pub open spec fn sort_waiting(s: Seq<WaitV>) -> Seq<WaitV>
    decreases s.len(),
{
    if s.len() == 0 {
        s
    } else {
        let sorted = sort_waiting(s.drop_last());
        sorted.insert(wait_insert_at(sorted, s.last()), s.last())
    }
}

/// Where a document's entry goes among entries already in path order.
pub open spec fn doc_insert_at(s: Seq<(Seq<char>, (nat, nat))>, x: (Seq<char>, (nat, nat))) -> int
    decreases s.len(),
{
    if s.len() == 0 {
        0
    } else if seq_lt(x.0, s[0].0) {
        0
    } else {
        1 + doc_insert_at(s.drop_first(), x)
    }
}

/// The entries in path order.
pub open spec fn sort_docs(s: Seq<(Seq<char>, (nat, nat))>) -> Seq<(Seq<char>, (nat, nat))>
    decreases s.len(),
{
    if s.len() == 0 {
        s
    } else {
        let sorted = sort_docs(s.drop_last());
        sorted.insert(doc_insert_at(sorted, s.last()), s.last())
    }
}

/// Everything one repository's sidecars amount to: per document, ascending
/// by path, its open and resolved threads, and the [`MAX_WAITING`] most
/// waited-on people.
pub open spec fn repository_threads_of(files: Seq<(Seq<char>, Seq<char>)>) -> RepoV {
    let r = repo_pass(group_sidecars(files));
    let w = sort_waiting(r.waiting);
    RepoV {
        documents: sort_docs(r.documents),
        waiting: if w.len() <= MAX_WAITING { w } else { w.take(MAX_WAITING as int) },
    }
}

// ── the fold, computed ───────────────────────────────────────────────────────

struct Message {
    id: String,
    author: Option<String>,
    name: Option<String>,
}

impl View for Message {
    type V = MessageV;

    closed spec fn view(&self) -> MessageV {
        MessageV { id: self.id@, author: opt_view(self.author), name: opt_view(self.name) }
    }
}

spec fn message_views(v: Seq<Message>) -> Seq<MessageV> {
    v.map_values(|m: Message| m@)
}

struct Thread {
    id: String,
    resolved: bool,
    messages: Vec<Message>,
}

impl View for Thread {
    type V = ThreadV;

    closed spec fn view(&self) -> ThreadV {
        ThreadV { id: self.id@, resolved: self.resolved, messages: message_views(self.messages@) }
    }
}

spec fn thread_views(v: Seq<Thread>) -> Seq<ThreadV> {
    v.map_values(|t: Thread| t@)
}

struct Entry {
    at: String,
    party: String,
    file: String,
    line: usize,
    op: Json,
}

impl View for Entry {
    type V = EntryV;

    closed spec fn view(&self) -> EntryV {
        EntryV { at: self.at@, party: self.party@, file: self.file@, line: self.line as nat, op: self.op }
    }
}

spec fn entry_views(v: Seq<Entry>) -> Seq<EntryV> {
    v.map_values(|e: Entry| e@)
}

fn str_field(op: &Json, key: &str) -> (out: Option<String>)
    ensures
        opt_view(out) == str_at(*op, key@),
{
    match op.str_at(key) {
        Some(s) => Some(s.to_owned()),
        None => None,
    }
}

fn by_field_exec(op: &Json, key: &str) -> (out: Option<String>)
    ensures
        opt_view(out) == by_field(*op, key@),
{
    match op.get("by") {
        Some(b) => str_field(b, key),
        None => None,
    }
}

fn message_of_exec(op: &Json, thread: &String, index: usize) -> (out: Message)
    ensures
        out@ == message_of(*op, thread@, index as nat),
{
    let id = match str_field(op, "message") {
        Some(m) => m,
        None => {
            let mut v = chars_of(thread.as_str());
            push_str(&mut v, "-m");
            let d = decimal_of(index as u64);
            push_all(&mut v, &d);
            string_of(&v)
        },
    };
    let name = match by_field_exec(op, "name") {
        Some(n) => if n.as_str().unicode_len() > 0 { Some(n) } else { None },
        None => None,
    };
    Message { id, author: by_field_exec(op, "id"), name }
}

fn find_thread(ts: &Vec<Thread>, id: &String) -> (out: Option<usize>)
    ensures
        match out {
            Some(i) => thread_index(thread_views(ts@), id@, 0) == Some(i as int) && i < ts@.len(),
            None => thread_index(thread_views(ts@), id@, 0) is None,
        },
{
    let n = ts.len();
    let mut i: usize = 0;
    while i < n
        invariant
            n == ts@.len(),
            i <= n,
            thread_index(thread_views(ts@), id@, 0) == thread_index(thread_views(ts@), id@, i as nat),
        decreases n - i,
    {
        proof {
            assert(thread_views(ts@)[i as int] == ts@[i as int]@);
        }
        if str_eq(ts[i].id.as_str(), id.as_str()) {
            return Some(i);
        }
        i = i + 1;
    }
    None
}

fn upsert_exec(ts: &mut Vec<Thread>, t: Thread)
    ensures
        thread_views(final(ts)@) == upsert(thread_views(old(ts)@), t@),
{
    let ghost before = ts@;
    match find_thread(ts, &t.id) {
        Some(i) => {
            let ghost tv = t;
            ts.set(i, t);
            proof {
                assert(thread_views(ts@) =~= thread_views(before).update(i as int, tv@));
            }
        },
        None => {
            let ghost tv = t;
            ts.push(t);
            proof {
                assert(thread_views(ts@) =~= thread_views(before).push(tv@));
            }
        },
    }
}

fn legacy_thread_exec(value: &Json) -> (out: Option<Thread>)
    ensures
        match out {
            Some(t) => legacy_thread(*value) == Some(t@),
            None => legacy_thread(*value) is None,
        },
{
    let id = match str_field(value, "id") {
        Some(id) => id,
        None => return None,
    };
    let resolved = match value.get("resolved") {
        Some(r) => match r.as_bool() {
            Some(b) => b,
            None => false,
        },
        None => false,
    };
    let mut messages: Vec<Message> = Vec::new();
    match value.get("messages") {
        Some(m) => match m.as_array() {
            Some(ms) => {
                let n = ms.len();
                for k in 0..n
                    invariant
                        n == ms@.len(),
                        message_views(messages@) == Seq::new(k as nat, |j: int| message_of(ms@[j], id@, j as nat)),
                {
                    let msg = message_of_exec(&ms[k], &id, k);
                    let ghost before = message_views(messages@);
                    let ghost mv = msg@;
                    messages.push(msg);
                    proof {
                        assert(mv == message_of(ms@[k as int], id@, k as nat));
                        assert(message_views(messages@) =~= before.push(mv));
                        assert(message_views(messages@) =~= Seq::new((k + 1) as nat, |j: int| message_of(ms@[j], id@, j as nat)));
                    }
                }
            },
            None => {},
        },
        None => {},
    }
    proof {
        assert(message_views(messages@) =~= legacy_messages(*value, id@));
    }
    Some(Thread { id, resolved, messages })
}

fn legacy_threads_exec(text: &Option<String>) -> (out: Vec<Thread>)
    ensures
        thread_views(out@) == legacy_threads(opt_view(*text)),
{
    let mut out: Vec<Thread> = Vec::new();
    let t = match text {
        Some(t) => t,
        None => return out,
    };
    let root = match Json::parse(t.as_str()) {
        Some(r) => r,
        None => return out,
    };
    let list = match root.get("threads") {
        Some(l) => match l.as_array() {
            Some(a) => a,
            None => return out,
        },
        None => return out,
    };
    let n = list.len();
    for i in 0..n
        invariant
            n == list@.len(),
            thread_views(out@) == legacy_fold(list@.take(i as int)),
    {
        proof {
            assert(list@.take(i + 1).drop_last() == list@.take(i as int));
            assert(list@.take(i + 1).last() == list@[i as int]);
        }
        match legacy_thread_exec(&list[i]) {
            Some(th) => upsert_exec(&mut out, th),
            None => {},
        }
    }
    proof {
        assert(list@.take(n as int) == list@);
    }
    out
}

fn log_entries_exec(party: &String, text: &String) -> (out: Vec<Entry>)
    ensures
        entry_views(out@) == log_entries(party@, log_lines(text@)),
{
    let pieces = split_char_exec(&chars_of(text.as_str()), '\n');
    let ghost ps = vec_views(pieces@);
    let np = pieces.len();
    let count = if pieces[np - 1].len() == 0 { np - 1 } else { np };
    let ghost lines = log_lines(text@);
    proof {
        assert(ps.last() == pieces@[np - 1]@);
        assert(lines.len() == count);
        assert forall|j: int| 0 <= j < count implies #[trigger] lines[j] == ps[j] by {}
    }
    let mut out: Vec<Entry> = Vec::new();
    for k in 0..count
        invariant
            count == lines.len(),
            count <= np,
            np == pieces@.len(),
            ps == vec_views(pieces@),
            lines == log_lines(text@),
            forall|j: int| 0 <= j < count ==> #[trigger] lines[j] == ps[j],
            entry_views(out@) == log_entries(party@, lines.take(k as int)),
    {
        let ghost t = lines.take(k + 1);
        proof {
            assert(t.drop_last() == lines.take(k as int));
            assert(t.last() == lines[k as int]);
            assert(ps[k as int] == pieces@[k as int]@);
        }
        let line = string_of(&trim_chars(&pieces[k]));
        match Json::parse(line.as_str()) {
            Some(op) => {
                if op.is_object() {
                    let at = match str_field(&op, "at") {
                        Some(a) => a,
                        None => String::new(),
                    };
                    let p = match by_field_exec(&op, "key") {
                        Some(p) => p,
                        None => party.clone(),
                    };
                    let e = Entry { at, party: p, file: party.clone(), line: k, op };
                    let ghost ev = e@;
                    let ghost before = entry_views(out@);
                    out.push(e);
                    proof {
                        assert(ev == entry_of(party@, k as nat, ev.op));
                        assert(entry_views(out@) =~= before.push(ev));
                    }
                }
            },
            None => {},
        }
    }
    proof {
        assert(lines.take(count as int) == lines);
    }
    out
}

spec fn log_views(v: Seq<(String, String)>) -> Seq<(Seq<char>, Seq<char>)> {
    v.map_values(|l: (String, String)| (l.0@, l.1@))
}

fn all_entries_exec(logs: &Vec<(String, String)>) -> (out: Vec<Entry>)
    ensures
        entry_views(out@) == all_entries(log_views(logs@)),
{
    let ghost ls = log_views(logs@);
    let mut out: Vec<Entry> = Vec::new();
    let n = logs.len();
    for i in 0..n
        invariant
            n == logs@.len(),
            ls == log_views(logs@),
            entry_views(out@) == all_entries(ls.take(i as int)),
    {
        proof {
            assert(ls.take(i + 1).drop_last() == ls.take(i as int));
            assert(ls.take(i + 1).last() == (logs@[i as int].0@, logs@[i as int].1@));
        }
        let mut more = log_entries_exec(&logs[i].0, &logs[i].1);
        let ghost a = entry_views(out@);
        let ghost b = entry_views(more@);
        out.append(&mut more);
        proof {
            assert(entry_views(out@) =~= a + b);
        }
    }
    proof {
        assert(ls.take(n as int) == ls);
    }
    out
}

fn text_lt(a: &String, b: &String) -> (r: bool)
    ensures
        r == seq_lt(a@, b@),
{
    crate::text::lex_lt(&chars_of(a.as_str()), &chars_of(b.as_str()))
}

fn entry_first(a: &Entry, b: &Entry) -> (r: bool)
    ensures
        r == entry_before(a@, b@),
{
    if !str_eq(a.at.as_str(), b.at.as_str()) {
        return text_lt(&a.at, &b.at);
    }
    if !str_eq(a.party.as_str(), b.party.as_str()) {
        return text_lt(&a.party, &b.party);
    }
    if !str_eq(a.file.as_str(), b.file.as_str()) {
        return text_lt(&a.file, &b.file);
    }
    a.line < b.line
}

fn sort_entries_exec(es: Vec<Entry>) -> (out: Vec<Entry>)
    ensures
        entry_views(out@) == sort_entries(entry_views(es@)),
{
    let ghost vs = entry_views(es@);
    let n = es.len();
    let mut rest = es;
    let mut out: Vec<Entry> = Vec::new();
    let mut i: usize = 0;
    while i < n
        invariant
            n == vs.len(),
            i <= n,
            rest@.len() == n - i,
            forall|k: int| 0 <= k < n - i ==> #[trigger] rest@[k]@ == vs[i + k],
            entry_views(out@) == sort_entries(vs.take(i as int)),
        decreases n - i,
    {
        let x = rest.remove(0);
        proof {
            assert(x@ == vs[i as int]);
            assert forall|k: int| 0 <= k < n - (i + 1) implies #[trigger] rest@[k]@ == vs[i + 1 + k] by {}
        }
        let ghost sorted = entry_views(out@);
        let mut k: usize = 0;
        proof {
            assert(sorted.skip(0) == sorted);
        }
        while k < out.len() && !entry_first(&x, &out[k])
            invariant
                0 <= k <= out@.len(),
                sorted == entry_views(out@),
                entry_insert_at(sorted, x@) == k + entry_insert_at(sorted.skip(k as int), x@),
            decreases out@.len() - k,
        {
            proof {
                assert(sorted.skip(k as int)[0] == out@[k as int]@);
                assert(sorted.skip(k as int).drop_first() == sorted.skip(k + 1));
            }
            k += 1;
        }
        proof {
            if k < out@.len() {
                assert(sorted.skip(k as int)[0] == out@[k as int]@);
            }
            assert(entry_insert_at(sorted, x@) == k);
            let t = vs.take(i + 1);
            assert(t.drop_last() == vs.take(i as int));
            assert(t.last() == x@);
        }
        let ghost xv = x@;
        out.insert(k, x);
        proof {
            assert(entry_views(out@) =~= sorted.insert(k as int, xv));
        }
        i = i + 1;
    }
    proof {
        assert(vs.take(n as int) == vs);
    }
    out
}

fn kind_is(op: &Json, kind: &str) -> (r: bool)
    requires
        kind@.len() > 0,
    ensures
        r == (op_kind(*op) == kind@),
{
    match op.str_at("op") {
        Some(k) => str_eq(k, kind),
        None => false,
    }
}

fn has_body_exec(op: &Json) -> (r: bool)
    ensures
        r == has_body(*op),
{
    match op.str_at("body") {
        Some(b) => b.unicode_len() > 0,
        None => false,
    }
}

/// Add a message to the `i`th thread.
fn push_message(ts: &mut Vec<Thread>, i: usize, op: &Json, id: &String)
    requires
        i < old(ts)@.len(),
    ensures
        thread_views(final(ts)@) == thread_views(old(ts)@).update(
            i as int,
            with_message(thread_views(old(ts)@)[i as int], message_of(*op, id@, thread_views(old(ts)@)[i as int].messages.len())),
        ),
{
    let ghost before = ts@;
    let mut t = ts.remove(i);
    let ghost tv = t@;
    proof {
        assert(tv == thread_views(before)[i as int]);
        assert(message_views(t.messages@).len() == t.messages@.len());
    }
    let m = message_of_exec(op, id, t.messages.len());
    let ghost mv = m@;
    t.messages.push(m);
    proof {
        assert(message_views(t.messages@) =~= tv.messages.push(mv));
    }
    let ghost nt = t;
    ts.insert(i, t);
    proof {
        assert(ts@ =~= before.update(i as int, nt));
        assert(thread_views(ts@) =~= thread_views(before).update(i as int, nt@));
    }
}

fn set_resolved(ts: &mut Vec<Thread>, i: usize, resolved: bool)
    requires
        i < old(ts)@.len(),
    ensures
        thread_views(final(ts)@) == thread_views(old(ts)@).update(i as int, with_resolved(thread_views(old(ts)@)[i as int], resolved)),
{
    let ghost before = ts@;
    let mut t = ts.remove(i);
    proof {
        assert(t@ == thread_views(before)[i as int]);
    }
    t.resolved = resolved;
    let ghost nt = t;
    ts.insert(i, t);
    proof {
        assert(ts@ =~= before.update(i as int, nt));
        assert(thread_views(ts@) =~= thread_views(before).update(i as int, nt@));
    }
}

fn open_step_exec(ts: &mut Vec<Thread>, op: &Json)
    ensures
        thread_views(final(ts)@) == open_step(thread_views(old(ts)@), *op),
{
    proof {
        reveal_strlit("open");
    }
    if !kind_is(op, "open") {
        return;
    }
    let id = match str_field(op, "thread") {
        Some(id) => id,
        None => return,
    };
    let ghost before = thread_views(ts@);
    let i = match find_thread(ts, &id) {
        Some(i) => i,
        None => {
            let t = Thread { id: id.clone(), resolved: false, messages: Vec::new() };
            proof {
                assert(message_views(t.messages@) =~= Seq::<MessageV>::empty());
            }
            let ghost tv = t;
            ts.push(t);
            proof {
                assert(thread_views(ts@) =~= before.push(tv@));
            }
            ts.len() - 1
        },
    };
    if has_body_exec(op) {
        push_message(ts, i, op, &id);
    }
}

fn open_pass_exec(ts: &mut Vec<Thread>, es: &Vec<Entry>)
    ensures
        thread_views(final(ts)@) == open_pass(thread_views(old(ts)@), entry_views(es@)),
{
    let ghost start = thread_views(ts@);
    let ghost evs = entry_views(es@);
    let n = es.len();
    for i in 0..n
        invariant
            n == es@.len(),
            evs == entry_views(es@),
            start == thread_views(old(ts)@),
            thread_views(ts@) == open_pass(start, evs.take(i as int)),
    {
        proof {
            assert(evs.take(i + 1).drop_last() == evs.take(i as int));
            assert(evs.take(i + 1).last() == es@[i as int]@);
        }
        open_step_exec(ts, &es[i].op);
    }
    proof {
        assert(evs.take(n as int) == evs);
    }
}

spec fn said_view(ts: Seq<Thread>, deleted: Seq<String>, retracted: Seq<String>) -> SaidV {
    SaidV { threads: thread_views(ts), deleted: string_views(deleted), retracted: string_views(retracted) }
}


fn say_step_exec(ts: &mut Vec<Thread>, deleted: &mut Vec<String>, retracted: &mut Vec<String>, op: &Json)
    ensures
        said_view(final(ts)@, final(deleted)@, final(retracted)@) == say_step(said_view(old(ts)@, old(deleted)@, old(retracted)@), *op),
{
    proof {
        reveal_strlit("open");
        reveal_strlit("delete");
        reveal_strlit("retract");
        reveal_strlit("reply");
        reveal_strlit("resolve");
        reveal_strlit("reopen");
    }
    let ghost st = said_view(ts@, deleted@, retracted@);
    if kind_is(op, "open") {
        return;
    }
    let id = match str_field(op, "thread") {
        Some(id) => id,
        None => return,
    };
    let is_delete = kind_is(op, "delete");
    let is_retract = kind_is(op, "retract");
    match find_thread(ts, &id) {
        None => {
            if is_delete {
                let ghost d0 = deleted@;
                let ghost iv = id@;
                deleted.push(id);
                proof {
                    assert(string_views(deleted@) =~= string_views(d0).push(iv));
                }
            } else if is_retract {
                match str_field(op, "message") {
                    Some(m) => {
                        let ghost r0 = retracted@;
                        let ghost mv = m@;
                        retracted.push(m);
                        proof {
                            assert(string_views(retracted@) =~= string_views(r0).push(mv));
                        }
                    },
                    None => {},
                }
            }
        },
        Some(i) => {
            if kind_is(op, "reply") {
                push_message(ts, i, op, &id);
            } else if kind_is(op, "resolve") {
                set_resolved(ts, i, true);
            } else if kind_is(op, "reopen") {
                set_resolved(ts, i, false);
            } else if is_retract {
                match str_field(op, "message") {
                    Some(m) => {
                        let ghost r0 = retracted@;
                        let ghost mv = m@;
                        retracted.push(m);
                        proof {
                            assert(string_views(retracted@) =~= string_views(r0).push(mv));
                        }
                    },
                    None => {},
                }
            } else if is_delete {
                let ghost d0 = deleted@;
                let ghost iv = id@;
                deleted.push(id);
                proof {
                    assert(string_views(deleted@) =~= string_views(d0).push(iv));
                }
            }
        },
    }
}

fn say_pass_exec(ts: &mut Vec<Thread>, deleted: &mut Vec<String>, retracted: &mut Vec<String>, es: &Vec<Entry>)
    ensures
        said_view(final(ts)@, final(deleted)@, final(retracted)@) == say_pass(
            said_view(old(ts)@, old(deleted)@, old(retracted)@),
            entry_views(es@),
        ),
{
    let ghost start = said_view(ts@, deleted@, retracted@);
    let ghost evs = entry_views(es@);
    let n = es.len();
    for i in 0..n
        invariant
            n == es@.len(),
            evs == entry_views(es@),
            start == said_view(old(ts)@, old(deleted)@, old(retracted)@),
            said_view(ts@, deleted@, retracted@) == say_pass(start, evs.take(i as int)),
    {
        proof {
            assert(evs.take(i + 1).drop_last() == evs.take(i as int));
            assert(evs.take(i + 1).last() == es@[i as int]@);
        }
        say_step_exec(ts, deleted, retracted, &es[i].op);
    }
    proof {
        assert(evs.take(n as int) == evs);
    }
}

impl View for Waiting {
    type V = WaitV;

    open spec fn view(&self) -> WaitV {
        WaitV { id: self.id@, name: self.name@, threads: self.threads as nat }
    }
}

pub open spec fn wait_views(v: Seq<Waiting>) -> Seq<WaitV> {
    v.map_values(|w: Waiting| w@)
}

fn contains_string(v: &Vec<String>, x: &String) -> (r: bool)
    ensures
        r == string_views(v@).contains(x@),
{
    let n = v.len();
    for i in 0..n
        invariant
            n == v@.len(),
            forall|k: int| 0 <= k < i ==> #[trigger] string_views(v@)[k] != x@,
    {
        proof {
            assert(string_views(v@)[i as int] == v@[i as int]@);
        }
        if str_eq(v[i].as_str(), x.as_str()) {
            return true;
        }
    }
    false
}

fn copy_text(o: &Option<String>) -> (out: Option<String>)
    ensures
        opt_view(out) == opt_view(*o),
{
    match o {
        Some(s) => Some(s.clone()),
        None => None,
    }
}

fn copy_message(m: &Message) -> (out: Message)
    ensures
        out@ == m@,
{
    Message { id: m.id.clone(), author: copy_text(&m.author), name: copy_text(&m.name) }
}

fn kept_exec(ms: &Vec<Message>, retracted: &Vec<String>) -> (out: Vec<Message>)
    ensures
        message_views(out@) == kept(message_views(ms@), string_views(retracted@)),
{
    let ghost mv = message_views(ms@);
    let mut out: Vec<Message> = Vec::new();
    let n = ms.len();
    for i in 0..n
        invariant
            n == ms@.len(),
            mv == message_views(ms@),
            message_views(out@) == kept(mv.take(i as int), string_views(retracted@)),
    {
        proof {
            assert(mv.take(i + 1).drop_last() == mv.take(i as int));
            assert(mv.take(i + 1).last() == ms@[i as int]@);
        }
        if !contains_string(retracted, &ms[i].id) {
            let c = copy_message(&ms[i]);
            let ghost before = message_views(out@);
            let ghost cv = c@;
            out.push(c);
            proof {
                assert(message_views(out@) =~= before.push(cv));
            }
        }
    }
    proof {
        assert(mv.take(n as int) == mv);
    }
    out
}

fn find_waiting(w: &Vec<Waiting>, id: &String) -> (out: Option<usize>)
    ensures
        match out {
            Some(i) => wait_index(wait_views(w@), id@, 0) == Some(i as int) && i < w@.len(),
            None => wait_index(wait_views(w@), id@, 0) is None,
        },
{
    let n = w.len();
    let mut i: usize = 0;
    while i < n
        invariant
            n == w@.len(),
            i <= n,
            wait_index(wait_views(w@), id@, 0) == wait_index(wait_views(w@), id@, i as nat),
        decreases n - i,
    {
        proof {
            assert(wait_views(w@)[i as int] == w@[i as int]@);
        }
        if str_eq(w[i].id.as_str(), id.as_str()) {
            return Some(i);
        }
        i = i + 1;
    }
    None
}

fn bump_exec(w: &mut Vec<Waiting>, id: &String, name: &Option<String>)
    ensures
        wait_views(final(w)@) == bump(wait_views(old(w)@), id@, opt_view(*name)),
{
    let ghost before = w@;
    match find_waiting(w, id) {
        Some(i) => {
            let mut e = w.remove(i);
            proof {
                assert(e@ == wait_views(before)[i as int]);
            }
            if e.threads < usize::MAX {
                e.threads = e.threads + 1;
            }
            match name {
                Some(n) => {
                    e.name = n.clone();
                },
                None => {},
            }
            let ghost ne = e;
            w.insert(i, e);
            proof {
                assert(w@ =~= before.update(i as int, ne));
                assert(wait_views(w@) =~= wait_views(before).update(i as int, ne@));
            }
        },
        None => {
            let e = Waiting {
                id: id.clone(),
                name: match name {
                    Some(n) => n.clone(),
                    None => String::new(),
                },
                threads: 1,
            };
            let ghost ne = e;
            w.push(e);
            proof {
                assert(wait_views(w@) =~= wait_views(before).push(ne@));
            }
        },
    }
}

fn credit_exec(left: &Vec<Message>, waiting: &mut Vec<Waiting>)
    ensures
        wait_views(final(waiting)@) == credit(message_views(left@), wait_views(old(waiting)@)),
{
    let ghost lv = message_views(left@);
    let ghost w0 = wait_views(waiting@);
    let n = left.len();
    if n == 0 {
        return;
    }
    proof {
        assert(lv.last() == left@[n - 1]@);
    }
    let last = match &left[n - 1].author {
        Some(a) => a.clone(),
        None => return,
    };
    let mut credited: Vec<String> = Vec::new();
    proof {
        assert(lv.take(0) =~= Seq::<MessageV>::empty());
        assert(string_views(credited@) =~= Seq::<Seq<char>>::empty());
    }
    for i in 0..n
        invariant
            n == left@.len(),
            lv == message_views(left@),
            w0 == wait_views(old(waiting)@),
            (string_views(credited@), wait_views(waiting@)) == credit_pass(lv.take(i as int), last@, w0),
    {
        proof {
            assert(lv.take(i + 1).drop_last() == lv.take(i as int));
            assert(lv.take(i + 1).last() == left@[i as int]@);
        }
        match &left[i].author {
            None => {},
            Some(a) => {
                if !str_eq(a.as_str(), last.as_str()) && !contains_string(&credited, a) {
                    let ghost c0 = credited@;
                    credited.push(a.clone());
                    proof {
                        assert(string_views(credited@) =~= string_views(c0).push(a@));
                    }
                    bump_exec(waiting, a, &left[i].name);
                }
            },
        }
    }
    proof {
        assert(lv.take(n as int) == lv);
    }
}

spec fn count_view(open: usize, resolved: usize, w: Seq<Waiting>) -> CountV {
    CountV { open: open as nat, resolved: resolved as nat, waiting: wait_views(w) }
}

fn count_pass_exec(
    ts: &Vec<Thread>,
    deleted: &Vec<String>,
    retracted: &Vec<String>,
    waiting: &mut Vec<Waiting>,
) -> (out: (usize, usize))
    ensures
        count_view(out.0, out.1, final(waiting)@) == count_pass(
            count_view(0, 0, old(waiting)@),
            thread_views(ts@),
            string_views(deleted@),
            string_views(retracted@),
        ),
{
    let ghost tv = thread_views(ts@);
    let ghost start = count_view(0, 0, waiting@);
    let mut open: usize = 0;
    let mut resolved: usize = 0;
    let n = ts.len();
    for i in 0..n
        invariant
            n == ts@.len(),
            tv == thread_views(ts@),
            start == count_view(0, 0, old(waiting)@),
            open + resolved <= i,
            count_view(open, resolved, waiting@) == count_pass(start, tv.take(i as int), string_views(deleted@), string_views(retracted@)),
    {
        proof {
            assert(tv.take(i + 1).drop_last() == tv.take(i as int));
            assert(tv.take(i + 1).last() == ts@[i as int]@);
        }
        let t = &ts[i];
        if !contains_string(deleted, &t.id) {
            let left = kept_exec(&t.messages, retracted);
            if left.len() > 0 {
                if t.resolved {
                    resolved = resolved + 1;
                } else {
                    open = open + 1;
                    credit_exec(&left, waiting);
                }
            }
        }
    }
    proof {
        assert(tv.take(n as int) == tv);
    }
    (open, resolved)
}

fn fold_document_exec(g: &Group, waiting: &mut Vec<Waiting>) -> (out: (usize, usize))
    ensures
        count_view(out.0, out.1, final(waiting)@) == fold_document(g@, wait_views(old(waiting)@)),
{
    let mut ts = legacy_threads_exec(&g.legacy);
    let es = sort_entries_exec(all_entries_exec(&g.logs));
    open_pass_exec(&mut ts, &es);
    let mut deleted: Vec<String> = Vec::new();
    let mut retracted: Vec<String> = Vec::new();
    proof {
        assert(string_views(deleted@) =~= Seq::<Seq<char>>::empty());
        assert(string_views(retracted@) =~= Seq::<Seq<char>>::empty());
    }
    say_pass_exec(&mut ts, &mut deleted, &mut retracted, &es);
    count_pass_exec(&ts, &deleted, &retracted, waiting)
}

pub open spec fn document_views(v: Seq<(String, ThreadCounts)>) -> Seq<(Seq<char>, (nat, nat))> {
    v.map_values(|d: (String, ThreadCounts)| (d.0@, (d.1.open as nat, d.1.resolved as nat)))
}

fn waiting_first(a: &Waiting, b: &Waiting) -> (r: bool)
    ensures
        r == wait_before(a@, b@),
{
    if a.threads != b.threads {
        return a.threads > b.threads;
    }
    crate::text::lex_lt(&chars_of(a.id.as_str()), &chars_of(b.id.as_str()))
}

fn sort_waiting_exec(ws: Vec<Waiting>) -> (out: Vec<Waiting>)
    ensures
        wait_views(out@) == sort_waiting(wait_views(ws@)),
{
    let ghost vs = wait_views(ws@);
    let n = ws.len();
    let mut rest = ws;
    let mut out: Vec<Waiting> = Vec::new();
    let mut i: usize = 0;
    while i < n
        invariant
            n == vs.len(),
            i <= n,
            rest@.len() == n - i,
            forall|k: int| 0 <= k < n - i ==> #[trigger] rest@[k]@ == vs[i + k],
            wait_views(out@) == sort_waiting(vs.take(i as int)),
        decreases n - i,
    {
        let x = rest.remove(0);
        proof {
            assert(x@ == vs[i as int]);
            assert forall|k: int| 0 <= k < n - (i + 1) implies #[trigger] rest@[k]@ == vs[i + 1 + k] by {}
        }
        let ghost sorted = wait_views(out@);
        let mut k: usize = 0;
        proof {
            assert(sorted.skip(0) == sorted);
        }
        while k < out.len() && !waiting_first(&x, &out[k])
            invariant
                0 <= k <= out@.len(),
                sorted == wait_views(out@),
                wait_insert_at(sorted, x@) == k + wait_insert_at(sorted.skip(k as int), x@),
            decreases out@.len() - k,
        {
            proof {
                assert(sorted.skip(k as int)[0] == out@[k as int]@);
                assert(sorted.skip(k as int).drop_first() == sorted.skip(k + 1));
            }
            k += 1;
        }
        proof {
            if k < out@.len() {
                assert(sorted.skip(k as int)[0] == out@[k as int]@);
            }
            assert(wait_insert_at(sorted, x@) == k);
            let t = vs.take(i + 1);
            assert(t.drop_last() == vs.take(i as int));
            assert(t.last() == x@);
        }
        let ghost xv = x@;
        out.insert(k, x);
        proof {
            assert(wait_views(out@) =~= sorted.insert(k as int, xv));
        }
        i = i + 1;
    }
    proof {
        assert(vs.take(n as int) == vs);
    }
    out
}

/// Fold every comment sidecar among a repository's files into per-document
/// counts and per-person waiting.
///
/// Takes `(path, text)` for the files the sync already read; anything that
/// is not a sidecar is ignored, so the caller hands over the whole walk. A
/// document whose threads have all been deleted produces no entry; the
/// documents come ascending by path. People
/// come most waited-on first, then by id, so an unchanged repository folds
/// to an unchanged answer.
pub fn fold_repository(files: &[(&str, &str)]) -> (out: RepositoryThreads)
    ensures
        document_views(out.documents@) == repository_threads_of(file_views(files@)).documents,
        wait_views(out.waiting@) == repository_threads_of(file_views(files@)).waiting,
{
    let ghost fv = file_views(files@);
    let mut groups: Vec<Group> = Vec::new();
    let n = files.len();
    for i in 0..n
        invariant
            n == files@.len(),
            fv == file_views(files@),
            group_views(groups@) == group_sidecars(fv.take(i as int)),
    {
        proof {
            assert(fv.take(i + 1).drop_last() == fv.take(i as int));
            assert(fv.take(i + 1).last() == (files@[i as int].0@, files@[i as int].1@));
        }
        read_file(&mut groups, files[i].0, files[i].1);
    }
    proof {
        assert(fv.take(n as int) == fv);
    }
    let ghost gv = group_views(groups@);
    let mut documents: Vec<(String, ThreadCounts)> = Vec::new();
    let mut waiting: Vec<Waiting> = Vec::new();
    let m = groups.len();
    proof {
        assert(gv.take(0) =~= Seq::<SidecarsV>::empty());
        assert(document_views(documents@) =~= Seq::<(Seq<char>, (nat, nat))>::empty());
        assert(wait_views(waiting@) =~= Seq::<WaitV>::empty());
    }
    for i in 0..m
        invariant
            m == groups@.len(),
            gv == group_views(groups@),
            document_views(documents@) == repo_pass(gv.take(i as int)).documents,
            wait_views(waiting@) == repo_pass(gv.take(i as int)).waiting,
    {
        proof {
            assert(gv.take(i + 1).drop_last() == gv.take(i as int));
            assert(gv.take(i + 1).last() == groups@[i as int]@);
        }
        let (o, r) = fold_document_exec(&groups[i], &mut waiting);
        if o > 0 || r > 0 {
            let d = (groups[i].document.clone(), ThreadCounts { open: o, resolved: r });
            let ghost before = document_views(documents@);
            let ghost dv = (d.0@, (o as nat, r as nat));
            documents.push(d);
            proof {
                assert(document_views(documents@) =~= before.push(dv));
            }
        }
    }
    proof {
        assert(gv.take(m as int) == gv);
    }
    let mut sorted = sort_waiting_exec(waiting);
    if sorted.len() > MAX_WAITING {
        let ghost full = wait_views(sorted@);
        sorted.truncate(MAX_WAITING);
        proof {
            assert(wait_views(sorted@) =~= full.take(MAX_WAITING as int));
        }
    }
    RepositoryThreads { documents: sort_docs_exec(documents), waiting: sorted }
}

fn sort_docs_exec(docs: Vec<(String, ThreadCounts)>) -> (out: Vec<(String, ThreadCounts)>)
    ensures
        document_views(out@) == sort_docs(document_views(docs@)),
{
    let ghost all = document_views(docs@);
    let mut rest = docs;
    let mut out: Vec<(String, ThreadCounts)> = Vec::new();
    let mut taken: usize = 0;
    let total = rest.len();
    while rest.len() > 0
        invariant
            total == all.len(),
            taken + rest@.len() == all.len(),
            document_views(rest@) == all.skip(taken as int),
            document_views(out@) == sort_docs(all.take(taken as int)),
        decreases rest@.len(),
    {
        let ghost before_rest = rest@;
        let x = rest.remove(0);
        let ghost xv = (x.0@, (x.1.open as nat, x.1.resolved as nat));
        proof {
            assert(document_views(before_rest)[0] == xv);
            assert(document_views(rest@) =~= document_views(before_rest).drop_first());
            assert(all.skip(taken + 1) =~= all.skip(taken as int).drop_first());
        }
        let ghost sorted = document_views(out@);
        let xp = chars_of(x.0.as_str());
        let mut k: usize = 0;
        proof {
            assert(sorted.skip(0) == sorted);
        }
        while k < out.len()
            invariant
                0 <= k <= out@.len(),
                sorted == document_views(out@),
                xp@ == xv.0,
                doc_insert_at(sorted, xv) == k + doc_insert_at(sorted.skip(k as int), xv),
            ensures
                doc_insert_at(sorted, xv) == k,
            decreases out@.len() - k,
        {
            proof {
                assert(sorted.skip(k as int)[0] == (out@[k as int].0@, (out@[k as int].1.open as nat, out@[k as int].1.resolved as nat)));
                assert(sorted.skip(k as int).drop_first() == sorted.skip(k + 1));
            }
            if crate::text::lex_lt(&xp, &chars_of(out[k].0.as_str())) {
                break;
            }
            k += 1;
        }
        out.insert(k, x);
        proof {
            assert(all.take(taken + 1).drop_last() == all.take(taken as int));
            assert(all.take(taken + 1).last() == xv);
            assert(document_views(out@) =~= sorted.insert(k as int, xv));
        }
        taken = taken + 1;
    }
    proof {
        assert(all.take(taken as int) == all);
    }
    out
}

impl RepositoryThreads {
    /// The counts kept for a document, when it has any.
    pub fn counts_for(&self, document: &str) -> (out: Option<ThreadCounts>)
        ensures
            match out {
                Some(c) => exists|i: int|
                    0 <= i < self.documents@.len() && self.documents@[i].0@ == document@
                        && self.documents@[i].1 == c && forall|j: int|
                        0 <= j < i ==> #[trigger] self.documents@[j].0@ != document@,
                None => forall|i: int|
                    0 <= i < self.documents@.len() ==> #[trigger] self.documents@[i].0@ != document@,
            },
    {
        let n = self.documents.len();
        for i in 0..n
            invariant
                n == self.documents@.len(),
                forall|j: int| 0 <= j < i ==> #[trigger] self.documents@[j].0@ != document@,
        {
            if str_eq(self.documents[i].0.as_str(), document) {
                return Some(self.documents[i].1);
            }
        }
        None
    }
}

/// A file that is not a comment sidecar (outside `.studio/comments/`, or
/// ending in neither `.jsonl` nor `.json`) changes nothing: handing it over
/// with the others leaves every document's counts and the waiting list as
/// they were.
pub proof fn law_files_that_are_not_sidecars_change_nothing(
    files: Seq<(Seq<char>, Seq<char>)>,
    p: Seq<char>,
    t: Seq<char>,
)
    requires
        !starts_with(p, SIDECAR_DIR@) || (!ends_with(p, ".jsonl"@) && !ends_with(p, ".json"@)),
    ensures
        repository_threads_of(files.push((p, t))) == repository_threads_of(files),
{
    if starts_with(p, SIDECAR_DIR@) {
        let rest = p.skip(SIDECAR_DIR@.len() as int);
        if ends_with(rest, ".jsonl"@) {
            assert(rest.skip(rest.len() - ".jsonl"@.len()) =~= p.skip(p.len() - ".jsonl"@.len()));
        }
        if ends_with(rest, ".json"@) {
            assert(rest.skip(rest.len() - ".json"@.len()) =~= p.skip(p.len() - ".json"@.len()));
        }
    }
    assert(sidecar_of(p) is None);
    assert(files.push((p, t)).drop_last() == files);
    assert(group_sidecars(files.push((p, t))) == group_sidecars(files));
}

} // verus!
