//! Handing a project's specs to Spec Quality: which detectors exist, which
//! documents a run is about, and where their text is read from.

use vstd::prelude::*;

use crate::text::string_views;

use crate::json::{json_array, json_bool, json_get, json_str, str_at, Json};
use crate::text::{
    chars_of, is_ws, keys_unique, lex_lt, lower_seq, opt_view, seq_lt, str_eq, string_of, to_lower, trim, trim_chars,
};

verus! {

/// A document as the analysis needs it.
pub struct SpecDoc {
    /// Repo-relative path — the id the detectors echo back.
    pub path: String,
    pub text: String,
    /// The type a binding settled on, for the detector that judges against it.
    pub doc_type: Option<String>,
}

pub struct SpecDocV {
    pub path: Seq<char>,
    pub text: Seq<char>,
    pub doc_type: Option<Seq<char>>,
}

impl View for SpecDoc {
    type V = SpecDocV;

    open spec fn view(&self) -> SpecDocV {
        SpecDocV { path: self.path@, text: self.text@, doc_type: opt_view(self.doc_type) }
    }
}

/// The four detectors the upstream serves.
#[derive(Debug, Clone, Copy, PartialEq, Eq, Structural)]
pub enum Detector {
    Purpose,
    Leak,
    Bloat,
    Traceability,
}

pub open spec fn detector_name(d: Detector) -> Seq<char> {
    match d {
        Detector::Purpose => "purpose"@,
        Detector::Leak => "leak"@,
        Detector::Bloat => "bloat"@,
        Detector::Traceability => "traceability"@,
    }
}

/// The detector a name selects, read trimmed and without regard to ASCII
/// case.
pub open spec fn detector_of(value: Seq<char>) -> Option<Detector> {
    let v = lower_seq(trim(value));
    if v == "purpose"@ {
        Some(Detector::Purpose)
    } else if v == "leak"@ {
        Some(Detector::Leak)
    } else if v == "bloat"@ {
        Some(Detector::Bloat)
    } else if v == "traceability"@ {
        Some(Detector::Traceability)
    } else {
        None
    }
}

/// `bloat` and `traceability` judge a set of documents, the others one.
pub open spec fn is_whole_set(d: Detector) -> bool {
    d == Detector::Bloat || d == Detector::Traceability
}

impl Detector {
    /// The detector by name; an unknown one fails here rather than as an
    /// upstream 404 inside a run.
    pub fn parse(value: &str) -> (out: Option<Detector>)
        ensures
            out == detector_of(value@),
    {
        let t = trim_chars(&chars_of(value));
        let mut v: Vec<char> = Vec::new();
        let n = t.len();
        for i in 0..n
            invariant
                n == t@.len(),
                v@ == lower_seq(t@.take(i as int)),
        {
            v.push(to_lower(t[i]));
            proof {
                assert(lower_seq(t@.take(i + 1)) =~= lower_seq(t@.take(i as int)).push(crate::text::lower(t@[i as int])));
            }
        }
        proof {
            assert(t@.take(n as int) == t@);
        }
        let s = string_of(&v);
        if str_eq(s.as_str(), "purpose") {
            Some(Detector::Purpose)
        } else if str_eq(s.as_str(), "leak") {
            Some(Detector::Leak)
        } else if str_eq(s.as_str(), "bloat") {
            Some(Detector::Bloat)
        } else if str_eq(s.as_str(), "traceability") {
            Some(Detector::Traceability)
        } else {
            None
        }
    }

    pub fn as_str(self) -> (out: &'static str)
        ensures
            out@ == detector_name(self),
    {
        match self {
            Detector::Purpose => "purpose",
            Detector::Leak => "leak",
            Detector::Bloat => "bloat",
            Detector::Traceability => "traceability",
        }
    }

    /// Whether the detector judges one document or a set of them.
    pub fn whole_set(self) -> (out: bool)
        ensures
            out == is_whole_set(self),
    {
        match self {
            Detector::Bloat | Detector::Traceability => true,
            _ => false,
        }
    }
}

/// The text a checkout holds for `path`: the first entry naming it.
pub open spec fn text_for(by_path: Seq<(String, String)>, path: Seq<char>, i: nat) -> Option<Seq<char>>
    decreases by_path.len() - i,
{
    if i >= by_path.len() {
        None
    } else if by_path[i as int].0@ == path {
        Some(by_path[i as int].1@)
    } else {
        text_for(by_path, path, i + 1)
    }
}

/// The bindings a caller named, joined to the text a checkout holds; a
/// binding whose file the checkout does not have is dropped.
pub open spec fn docs_of(wanted: Seq<(String, Option<String>)>, by_path: Seq<(String, String)>) -> Seq<SpecDocV>
    decreases wanted.len(),
{
    if wanted.len() == 0 {
        seq![]
    } else {
        let rest = docs_of(wanted.drop_last(), by_path);
        let (path, doc_type) = wanted.last();
        match text_for(by_path, path@, 0) {
            Some(text) => rest.push(SpecDocV { path: path@, text, doc_type: opt_view(doc_type) }),
            None => rest,
        }
    }
}

pub open spec fn doc_views(v: Seq<SpecDoc>) -> Seq<SpecDocV> {
    v.map_values(|d: SpecDoc| d@)
}

fn find_text(by_path: &[(String, String)], path: &String) -> (out: Option<usize>)
    ensures
        match out {
            Some(k) => k < by_path@.len() && text_for(by_path@, path@, 0) == Some(by_path@[k as int].1@),
            None => text_for(by_path@, path@, 0) is None,
        },
{
    let n = by_path.len();
    let mut i: usize = 0;
    while i < n
        invariant
            n == by_path@.len(),
            i <= n,
            text_for(by_path@, path@, 0) == text_for(by_path@, path@, i as nat),
        decreases n - i,
    {
        if str_eq(by_path[i].0.as_str(), path.as_str()) {
            return Some(i);
        }
        i = i + 1;
    }
    None
}

fn copy_opt(o: &Option<String>) -> (out: Option<String>)
    ensures
        opt_view(out) == opt_view(*o),
{
    match o {
        Some(s) => Some(s.clone()),
        None => None,
    }
}

/// Join the bindings a caller named to the text a checkout holds, keyed by
/// repo-relative path. A binding whose file the checkout does not have is
/// dropped rather than sent empty.
pub fn docs_for(wanted: &[(String, Option<String>)], by_path: &[(String, String)]) -> (out: Vec<SpecDoc>)
    requires
        keys_unique(by_path@),
    ensures
        doc_views(out@) == docs_of(wanted@, by_path@),
{
    let mut out: Vec<SpecDoc> = Vec::new();
    let n = wanted.len();
    for i in 0..n
        invariant
            n == wanted@.len(),
            doc_views(out@) == docs_of(wanted@.take(i as int), by_path@),
    {
        proof {
            assert(wanted@.take(i + 1).drop_last() == wanted@.take(i as int));
            assert(wanted@.take(i + 1).last() == wanted@[i as int]);
        }
        match find_text(by_path, &wanted[i].0) {
            Some(k) => {
                let d = SpecDoc {
                    path: wanted[i].0.clone(),
                    text: by_path[k].1.clone(),
                    doc_type: copy_opt(&wanted[i].1),
                };
                let ghost before = doc_views(out@);
                out.push(d);
                proof {
                    assert(doc_views(out@) =~= before.push(d@));
                }
            },
            None => {},
        }
    }
    proof {
        assert(wanted@.take(n as int) == wanted@);
    }
    out
}

/// The checkout directory a `repos` entry names: its non-blank `target`,
/// else its `name`, trimmed; `None` for a `local` source.
pub open spec fn repo_dir(repo: Json) -> Option<Seq<char>> {
    if str_at(repo, "source"@) == Some("local"@) {
        None
    } else {
        let raw = match str_at(repo, "target"@) {
            Some(t) => if trim(t).len() > 0 { t } else {
                match str_at(repo, "name"@) {
                    Some(n) => n,
                    None => seq![],
                }
            },
            None => match str_at(repo, "name"@) {
                Some(n) => n,
                None => seq![],
            },
        };
        Some(trim(raw))
    }
}

pub open spec fn add_dir(out: Seq<Seq<char>>, repo: Json) -> Seq<Seq<char>> {
    match repo_dir(repo) {
        Some(d) => if d.len() > 0 && !out.contains(d) { out.push(d) } else { out },
        None => out,
    }
}

pub open spec fn dirs_of(repos: Seq<Json>) -> Seq<Seq<char>>
    decreases repos.len(),
{
    if repos.len() == 0 {
        seq![]
    } else {
        add_dir(dirs_of(repos.drop_last()), repos.last())
    }
}

/// The directories named by the settings' `repos`, in order and each once.
pub open spec fn checkout_dirs_of(settings: Json) -> Seq<Seq<char>> {
    match json_get(settings, "repos"@) {
        Some(v) => match json_array(v) {
            Some(a) => dirs_of(a),
            None => seq![],
        },
        None => seq![],
    }
}


fn repo_dir_exec(repo: &Json) -> (out: Option<Vec<char>>)
    ensures
        match out {
            Some(d) => repo_dir(*repo) == Some(d@),
            None => repo_dir(*repo) is None,
        },
{
    match repo.str_at("source") {
        Some(s) => {
            if str_eq(s, "local") {
                return None;
            }
        },
        None => {},
    }
    let name: Vec<char> = match repo.str_at("name") {
        Some(n) => chars_of(n),
        None => Vec::new(),
    };
    let raw = match repo.str_at("target") {
        Some(t) => {
            let tv = chars_of(t);
            if trim_chars(&tv).len() > 0 {
                tv
            } else {
                name
            }
        },
        None => name,
    };
    Some(trim_chars(&raw))
}

fn read_repo_dir(out: &mut Vec<String>, repo: &Json)
    ensures
        string_views(final(out)@) == add_dir(string_views(old(out)@), *repo),
{
    let d = match repo_dir_exec(repo) {
        Some(d) => d,
        None => return,
    };
    if d.len() == 0 {
        return;
    }
    let ghost before = string_views(out@);
    let ds = string_of(&d);
    let m = out.len();
    let mut k: usize = 0;
    while k < m
        invariant
            m == out@.len(),
            k <= m,
            before == string_views(out@),
            before == string_views(old(out)@),
            repo_dir(*repo) == Some(d@),
            d@.len() > 0,
            ds@ == d@,
            forall|j: int| 0 <= j < k ==> #[trigger] before[j] != d@,
        decreases m - k,
    {
        proof {
            assert(before[k as int] == out@[k as int]@);
        }
        if str_eq(out[k].as_str(), ds.as_str()) {
            proof {
                assert(before[k as int] == d@);
                assert(before.contains(d@));
            }
            return;
        }
        k = k + 1;
    }
    proof {
        assert(!before.contains(d@));
    }
    out.push(ds);
    proof {
        assert(string_views(out@) =~= before.push(d@));
    }
}

/// The directories a workspace's repositories were cloned into: `target`,
/// falling back to `name`; a `local` source is skipped, and a directory named
/// twice is read once.
pub fn checkout_dirs(settings: &Json) -> (out: Vec<String>)
    ensures
        string_views(out@) == checkout_dirs_of(*settings),
{
    let mut out: Vec<String> = Vec::new();
    let repos = match settings.get("repos") {
        Some(v) => match v.as_array() {
            Some(a) => a,
            None => return out,
        },
        None => return out,
    };
    let n = repos.len();
    for i in 0..n
        invariant
            n == repos@.len(),
            json_get(*settings, "repos"@) matches Some(v) && json_array(v) == Some(repos@),
            string_views(out@) == dirs_of(repos@.take(i as int)),
    {
        proof {
            assert(repos@.take(i + 1).drop_last() == repos@.take(i as int));
            assert(repos@.take(i + 1).last() == repos@[i as int]);
        }
        read_repo_dir(&mut out, &repos[i]);
    }
    proof {
        assert(repos@.take(n as int) == repos@);
    }
    out
}

/// One unit of work for a detector: the id its verdict comes back under,
/// and the payload it is sent.
pub struct AnalysisItem {
    pub id: String,
    pub payload: Json,
}

/// Where `key` goes in a map kept in ascending key order: before the first
/// key not below it.
pub open spec fn put_at(m: Seq<(Seq<char>, Seq<char>)>, key: Seq<char>) -> int
    decreases m.len(),
{
    if m.len() == 0 {
        0
    } else if !seq_lt(m[0].0, key) {
        0
    } else {
        1 + put_at(m.drop_first(), key)
    }
}

/// `key` set to `value` in a map kept in ascending key order, replacing
/// what the key held.
pub open spec fn map_put(m: Seq<(Seq<char>, Seq<char>)>, key: Seq<char>, value: Seq<char>) -> Seq<(Seq<char>, Seq<char>)> {
    let i = put_at(m, key);
    if i < m.len() && m[i].0 == key {
        m.update(i, (key, value))
    } else {
        m.insert(i, (key, value))
    }
}

/// Every document's text by its path, in path order, the last document
/// with a path winning.
pub open spec fn docs_map(docs: Seq<SpecDoc>) -> Seq<(Seq<char>, Seq<char>)>
    decreases docs.len(),
{
    if docs.len() == 0 {
        seq![]
    } else {
        map_put(docs_map(docs.drop_last()), docs.last().path@, docs.last().text@)
    }
}

/// An object whose members are exactly these strings, in order.
pub open spec fn is_str_object(j: Json, m: Seq<(Seq<char>, Seq<char>)>) -> bool {
    j matches Json::Object(ms) && (ms@.len() == m.len() && forall|i: int|
        0 <= i < m.len() ==> (#[trigger] ms@[i]).0@ == m[i].0 && json_str(ms@[i].1) == Some(m[i].1))
}

/// The payload a per-document detector is sent for one document.
pub open spec fn doc_payload(d: Detector, doc: SpecDoc, payload: Json) -> bool {
    payload matches Json::Object(ms) && (if d == Detector::Purpose {
        &&& ms@.len() == 3
        &&& ms@[0].0@ == "classify_doc_type"@ && json_bool(ms@[0].1) == Some(true)
        &&& ms@[1].0@ == "path"@ && json_str(ms@[1].1) == Some(doc.path@)
        &&& ms@[2].0@ == "text"@ && json_str(ms@[2].1) == Some(doc.text@)
    } else {
        &&& ms@.len() == 5
        &&& ms@[0].0@ == "doc_type"@ && json_str(ms@[0].1) == Some(
            match doc.doc_type {
                Some(t) => t@,
                None => seq![],
            },
        )
        &&& ms@[1].0@ == "gate_threshold"@
        &&& (ms@[1].1 matches Json::Number(t) && t@ == "0.05"@)
        &&& ms@[2].0@ == "path"@ && json_str(ms@[2].1) == Some(doc.path@)
        &&& ms@[3].0@ == "text"@ && json_str(ms@[3].1) == Some(doc.text@)
        &&& ms@[4].0@ == "verify"@ && json_bool(ms@[4].1) == Some(false)
    })
}

/// The payload a whole-set detector is sent: every document by path, and
/// for traceability, extraction without a second opinion.
pub open spec fn set_payload(d: Detector, docs: Seq<SpecDoc>, payload: Json) -> bool {
    payload matches Json::Object(ms) && (ms@.len() >= 1 && ms@[0].0@ == "docs"@ && is_str_object(ms@[0].1, docs_map(docs))
        && if d == Detector::Bloat {
        ms@.len() == 1
    } else {
        &&& ms@.len() == 3
        &&& ms@[1].0@ == "mode"@ && json_str(ms@[1].1) == Some("extract"@)
        &&& ms@[2].0@ == "verify"@ && json_bool(ms@[2].1) == Some(false)
    })
}

fn str_member(key: &str, value: &String) -> (m: (String, Json))
    ensures
        m.0@ == key@,
        json_str(m.1) == Some(value@),
{
    (key.to_owned(), Json::Str(value.clone()))
}

fn docs_object(docs: &[SpecDoc]) -> (out: Json)
    ensures
        is_str_object(out, docs_map(docs@)),
{
    let mut m: Vec<(String, Json)> = Vec::new();
    let n = docs.len();
    for i in 0..n
        invariant
            n == docs@.len(),
            m@.len() == docs_map(docs@.take(i as int)).len(),
            forall|k: int| 0 <= k < m@.len() ==> (#[trigger] m@[k]).0@ == docs_map(docs@.take(i as int))[k].0
                && json_str(m@[k].1) == Some(docs_map(docs@.take(i as int))[k].1),
    {
        let ghost dm = docs_map(docs@.take(i as int));
        proof {
            assert(docs@.take(i + 1).drop_last() == docs@.take(i as int));
            assert(docs@.take(i + 1).last() == docs@[i as int]);
        }
        let key = chars_of(docs[i].path.as_str());
        let mut j: usize = 0;
        proof {
            assert(dm.skip(0) == dm);
        }
        while j < m.len() && lex_lt(&chars_of(m[j].0.as_str()), &key)
            invariant
                j <= m@.len(),
                m@.len() == dm.len(),
                key@ == docs@[i as int].path@,
                forall|k: int| 0 <= k < m@.len() ==> (#[trigger] m@[k]).0@ == dm[k].0 && json_str(m@[k].1) == Some(dm[k].1),
                put_at(dm, key@) == j + put_at(dm.skip(j as int), key@),
            decreases m@.len() - j,
        {
            proof {
                assert(dm.skip(j as int)[0] == dm[j as int]);
                assert(dm.skip(j as int).drop_first() == dm.skip(j + 1));
            }
            j += 1;
        }
        proof {
            if j < m@.len() {
                assert(dm.skip(j as int)[0] == dm[j as int]);
            }
            assert(put_at(dm, key@) == j);
        }
        let ghost nm = map_put(dm, docs@[i as int].path@, docs@[i as int].text@);
        if j < m.len() && str_eq(m[j].0.as_str(), docs[i].path.as_str()) {
            let entry = str_member(docs[i].path.as_str(), &docs[i].text);
            m.set(j, entry);
            proof {
                assert(nm == dm.update(j as int, (docs@[i as int].path@, docs@[i as int].text@)));
            }
        } else {
            let entry = str_member(docs[i].path.as_str(), &docs[i].text);
            m.insert(j, entry);
            proof {
                assert(nm == dm.insert(j as int, (docs@[i as int].path@, docs@[i as int].text@)));
                assert forall|k: int| 0 <= k < m@.len() implies (#[trigger] m@[k]).0@ == nm[k].0 && json_str(m@[k].1) == Some(nm[k].1) by {
                    if k > j {
                        assert(nm[k] == dm[k - 1]);
                    } else if k < j {
                        assert(nm[k] == dm[k]);
                    }
                }
            }
        }
    }
    proof {
        assert(docs@.take(n as int) == docs@);
    }
    Json::Object(m)
}

/// The work for one detector over a set of documents: nothing for no
/// documents; one item carrying every document, under `set_id`, for a
/// detector that judges the set; else one item per document, under its
/// path.
pub fn build_items(detector: Detector, docs: &[SpecDoc], set_id: &str) -> (out: Vec<AnalysisItem>)
    ensures
        docs@.len() == 0 ==> out@.len() == 0,
        docs@.len() > 0 && is_whole_set(detector) ==> out@.len() == 1 && out@[0].id@ == set_id@ && set_payload(
            detector,
            docs@,
            out@[0].payload,
        ),
        docs@.len() > 0 && !is_whole_set(detector) ==> out@.len() == docs@.len() && forall|i: int|
            0 <= i < docs@.len() ==> (#[trigger] out@[i]).id@ == docs@[i].path@ && doc_payload(detector, docs@[i], out@[i].payload),
{
    let n = docs.len();
    if n == 0 {
        return Vec::new();
    }
    if detector.whole_set() {
        let docs_value = docs_object(docs);
        let mut members: Vec<(String, Json)> = Vec::new();
        members.push(("docs".to_owned(), docs_value));
        match detector {
            Detector::Bloat => {},
            _ => {
                members.push(("mode".to_owned(), Json::Str("extract".to_owned())));
                members.push(("verify".to_owned(), Json::Bool(false)));
            },
        }
        let mut out: Vec<AnalysisItem> = Vec::new();
        out.push(AnalysisItem { id: set_id.to_owned(), payload: Json::Object(members) });
        return out;
    }
    let mut out: Vec<AnalysisItem> = Vec::new();
    for i in 0..n
        invariant
            n == docs@.len(),
            !is_whole_set(detector),
            out@.len() == i,
            forall|k: int| 0 <= k < i ==> (#[trigger] out@[k]).id@ == docs@[k].path@ && doc_payload(detector, docs@[k], out@[k].payload),
    {
        let doc = &docs[i];
        let mut members: Vec<(String, Json)> = Vec::new();
        match detector {
            Detector::Purpose => {
                members.push(("classify_doc_type".to_owned(), Json::Bool(true)));
                members.push(str_member("path", &doc.path));
                members.push(str_member("text", &doc.text));
            },
            _ => {
                let t = match &doc.doc_type {
                    Some(t) => t.clone(),
                    None => String::new(),
                };
                members.push(str_member("doc_type", &t));
                members.push(("gate_threshold".to_owned(), Json::Number("0.05".to_owned())));
                members.push(str_member("path", &doc.path));
                members.push(str_member("text", &doc.text));
                members.push(("verify".to_owned(), Json::Bool(false)));
            },
        }
        out.push(AnalysisItem { id: doc.path.clone(), payload: Json::Object(members) });
    }
    out
}

} // verus!
