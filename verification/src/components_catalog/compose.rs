//! Matching what a product needs against the components this system knows.
//!
//! Candidates carry whether they were ever built: a well-written stub is
//! mostly prose and prose is what keywords match, so candidates are sorted
//! built-first and the rest are labelled rather than dropped, and the cut to a
//! handful happens after that sort.

use vstd::prelude::*;

use crate::components_catalog::values::{map_put, vmap_put, VMap};
use crate::json::{json_array, json_get, json_str, json_u64, json_view, member_views, str_at, Json};
use crate::text::{
    chars_of, is_alnum, keys_unique, is_alnum_char, join_str, join_strings, lowercase, occurs_at,
    occurs_at_exec, lex_lt, seq_lt, str_eq, string_of, to_lowercase, trim, trim_chars,
};

verus! {

/// What the catalogue can say about whether a component was ever built.
/// `Unknown` means the question does not apply or was never asked.
#[derive(Debug, Clone, Copy, PartialEq, Eq, Structural)]
pub enum BuildState {
    Built,
    DocsOnly,
    Unknown,
}

pub open spec fn build_state_name(b: BuildState) -> Seq<char> {
    match b {
        BuildState::Built => "built"@,
        BuildState::DocsOnly => "docs-only"@,
        BuildState::Unknown => "unknown"@,
    }
}

/// Built first, then the unscanned, then what is known to be docs only.
pub open spec fn build_rank(b: BuildState) -> u8 {
    match b {
        BuildState::Built => 0,
        BuildState::Unknown => 1,
        BuildState::DocsOnly => 2,
    }
}

impl BuildState {
    pub fn as_str(self) -> (out: &'static str)
        ensures
            out@ == build_state_name(self),
    {
        match self {
            BuildState::Built => "built",
            BuildState::DocsOnly => "docs-only",
            BuildState::Unknown => "unknown",
        }
    }

    /// The unknown sits in the middle: it might be built, and ranking it
    /// below something known not to be would assert more than was said.
    pub fn rank(self) -> (out: u8)
        ensures
            out == build_rank(self),
    {
        match self {
            BuildState::Built => 0,
            BuildState::Unknown => 1,
            BuildState::DocsOnly => 2,
        }
    }
}

/// Position `i` starts a word: nothing, or something other than an ASCII
/// letter or digit, comes before it.
pub open spec fn word_start(hay: Seq<char>, i: int) -> bool {
    i == 0 || !is_alnum(hay[i - 1])
}

/// `hay` mentions `t` at the start of a word. Anchored at the head only:
/// `deploy` is in `deployment-topology`, `source` is not in `resource`.
pub open spec fn mentions_term(hay: Seq<char>, t: Seq<char>) -> bool {
    t.len() > 0 && exists|i: int| #[trigger] occurs_at(hay, t, i) && word_start(hay, i)
}

/// The term as it is searched for: trimmed, then lower-cased.
pub open spec fn search_term(term: Seq<char>) -> Seq<char> {
    lowercase(trim(term))
}

fn search_term_exec(term: &str) -> (out: Vec<char>)
    ensures
        out@ == search_term(term@),
{
    let t = string_of(&trim_chars(&chars_of(term)));
    chars_of(to_lowercase(t.as_str()).as_str())
}

fn mentions_chars(h: &Vec<char>, t: &Vec<char>) -> (r: bool)
    ensures
        r == mentions_term(h@, t@),
{
    if t.len() == 0 {
        return false;
    }
    let n = h.len();
    let mut i: usize = 0;
    while i < n
        invariant
            n == h@.len(),
            i <= n,
            t@.len() > 0,
            forall|j: int| 0 <= j < i ==> #[trigger] occurs_at(h@, t@, j) ==> !word_start(h@, j),
        decreases n - i,
    {
        if occurs_at_exec(h, t, i) {
            if i == 0 || !is_alnum_char(h[i - 1]) {
                return true;
            }
        }
        i = i + 1;
    }
    proof {
        assert forall|j: int| #[trigger] occurs_at(h@, t@, j) implies !word_start(h@, j) by {
            assert(0 <= j < n);
        }
    }
    false
}

/// Does `hay` mention `term` at the start of a word?
///
/// The boundary is "not an ASCII letter or digit", so a hyphen, a slash and
/// an `@` all start a word. A term that trims to nothing matches nothing.
pub fn mentions(hay: &str, term: &str) -> (r: bool)
    ensures
        r == mentions_term(hay@, search_term(term@)),
{
    let t = search_term_exec(term);
    mentions_chars(&chars_of(hay), &t)
}

/// How many candidates a row offers before the tail is cut.
pub const SHORTLIST: usize = 5;

/// One component offered for one capability.
#[derive(Debug, Clone, PartialEq)]
pub struct Candidate {
    pub name: String,
    pub kind: String,
    /// How many of the capability's terms this component mentions.
    pub score: usize,
    /// Which terms they were — the reason, so a suggestion can be argued with.
    pub why: Vec<String>,
    pub built: BuildState,
}

/// One capability, and what could fill it.
#[derive(Debug, Clone, PartialEq)]
pub struct PlanRow {
    pub capability: String,
    pub candidates: Vec<Candidate>,
    /// No candidate at all — the capability has nothing to build from.
    pub gap: bool,
    /// Candidates exist, but none has been built.
    pub unbuilt: bool,
}

pub open spec fn str_or_empty(v: Json, key: Seq<char>) -> Seq<char> {
    match str_at(v, key) {
        Some(s) => s,
        None => seq![],
    }
}

/// The string items of a list, in order.
pub open spec fn str_items(items: Seq<Json>) -> Seq<Seq<char>>
    decreases items.len(),
{
    if items.len() == 0 {
        seq![]
    } else {
        let rest = str_items(items.drop_last());
        match json_str(items.last()) {
            Some(s) => rest.push(s),
            None => rest,
        }
    }
}

pub open spec fn list_text(v: Json, key: Seq<char>) -> Seq<char> {
    match json_get(v, key) {
        Some(a) => match json_array(a) {
            Some(items) => join_str(str_items(items), " "@),
            None => seq![],
        },
        None => seq![],
    }
}

/// The description the repository scan wrote: `auto.description.s`, or a
/// bare string there.
pub open spec fn profile_text(profile: Option<Json>) -> Seq<char> {
    match profile {
        None => seq![],
        Some(p) => match json_get(p, "auto"@) {
            None => seq![],
            Some(auto) => match json_get(auto, "description"@) {
                None => seq![],
                Some(d) => match str_at(d, "s"@) {
                    Some(s) => s,
                    None => match json_str(d) {
                        Some(s) => s,
                        None => seq![],
                    },
                },
            },
        },
    }
}

/// Everything about a component a capability's terms are matched against,
/// lower-cased: its name, description, kind, keywords, categories and the
/// scan's description.
pub open spec fn haystack_of(component: Json, profile: Option<Json>) -> Seq<char> {
    lowercase(
        join_str(
            seq![
                str_or_empty(component, "name"@),
                str_or_empty(component, "description"@),
                str_or_empty(component, "kind"@),
                list_text(component, "keywords"@),
                list_text(component, "categories"@),
                profile_text(profile),
            ],
            " "@,
        ),
    )
}

pub open spec fn auto_field(p: Json, key: Seq<char>) -> Option<Json> {
    match json_get(p, "auto"@) {
        Some(auto) => json_get(auto, key),
        None => None,
    }
}

/// What the catalogue says about a component: the scan's own word where it
/// wrote one, else the crate count (zero is docs only), else unknown.
pub open spec fn build_state_of(profile: Option<Json>) -> BuildState {
    match profile {
        None => BuildState::Unknown,
        Some(p) => match auto_field(p, "gear_status"@) {
            Some(s) if json_str(s) is Some => {
                let w = json_str(s)->0;
                if w == "built"@ {
                    BuildState::Built
                } else if w == "docs-only"@ {
                    BuildState::DocsOnly
                } else {
                    BuildState::Unknown
                }
            },
            _ => match auto_field(p, "crates"@) {
                Some(c) => match json_get(c, "n"@) {
                    Some(n) => match json_u64(n) {
                        Some(0) => BuildState::DocsOnly,
                        Some(_) => BuildState::Built,
                        None => BuildState::Unknown,
                    },
                    None => BuildState::Unknown,
                },
                None => BuildState::Unknown,
            },
        },
    }
}

fn str_or_empty_exec(v: &Json, key: &str) -> (out: String)
    ensures
        out@ == str_or_empty(*v, key@),
{
    match v.str_at(key) {
        Some(s) => s.to_owned(),
        None => String::new(),
    }
}

fn list_text_exec(v: &Json, key: &str) -> (out: String)
    ensures
        out@ == list_text(*v, key@),
{
    match v.get(key) {
        Some(a) => match a.as_array() {
            Some(items) => {
                let n = items.len();
                let mut strs: Vec<String> = Vec::new();
                for i in 0..n
                    invariant
                        n == items@.len(),
                        strs@.map_values(|s: String| s@) == str_items(items@.take(i as int)),
                {
                    proof {
                        assert(items@.take(i + 1).drop_last() == items@.take(i as int));
                        assert(items@.take(i + 1).last() == items@[i as int]);
                    }
                    match items[i].as_str() {
                        Some(s) => {
                            let ghost before = strs@.map_values(|s: String| s@);
                            strs.push(s.to_owned());
                            proof {
                                assert(strs@.map_values(|s: String| s@) =~= before.push(s@));
                            }
                        },
                        None => {},
                    }
                }
                proof {
                    assert(items@.take(n as int) == items@);
                }
                join_strings(&strs, " ")
            },
            None => String::new(),
        },
        None => String::new(),
    }
}

fn profile_text_exec(profile: Option<&Json>) -> (out: String)
    ensures
        out@ == profile_text(match profile {
            Some(p) => Some(*p),
            None => None,
        }),
{
    match profile {
        None => String::new(),
        Some(p) => match p.get("auto") {
            None => String::new(),
            Some(auto) => match auto.get("description") {
                None => String::new(),
                Some(d) => match d.str_at("s") {
                    Some(s) => s.to_owned(),
                    None => match d.as_str() {
                        Some(s) => s.to_owned(),
                        None => String::new(),
                    },
                },
            },
        },
    }
}

/// Everything about a component that a capability's terms are matched
/// against, lower-cased.
pub fn haystack(component: &Json, profile: Option<&Json>) -> (out: String)
    ensures
        out@ == haystack_of(*component, match profile {
            Some(p) => Some(*p),
            None => None,
        }),
{
    let parts: Vec<String> = vec![
        str_or_empty_exec(component, "name"),
        str_or_empty_exec(component, "description"),
        str_or_empty_exec(component, "kind"),
        list_text_exec(component, "keywords"),
        list_text_exec(component, "categories"),
        profile_text_exec(profile),
    ];
    let joined = join_strings(&parts, " ");
    proof {
        assert(parts@.map_values(|s: String| s@) =~= seq![
            str_or_empty(*component, "name"@),
            str_or_empty(*component, "description"@),
            str_or_empty(*component, "kind"@),
            list_text(*component, "keywords"@),
            list_text(*component, "categories"@),
            profile_text(match profile {
                Some(p) => Some(*p),
                None => None,
            }),
        ]);
    }
    let out = to_lowercase(joined.as_str());
    proof {
        let pv = parts@.map_values(|s: String| s@);
        assert(joined@ == join_str(pv, " "@));
        assert(out@ == lowercase(joined@));
        let mp = match profile {
            Some(p) => Some(*p),
            None => None,
        };
        let sq = seq![
            str_or_empty(*component, "name"@),
            str_or_empty(*component, "description"@),
            str_or_empty(*component, "kind"@),
            list_text(*component, "keywords"@),
            list_text(*component, "categories"@),
            profile_text(mp),
        ];
        assert(pv == sq);
        assert(haystack_of(*component, mp) == lowercase(join_str(sq, " "@)));
    }
    out
}

/// What the catalogue says about whether a component was ever built.
pub fn build_state(profile: Option<&Json>) -> (out: BuildState)
    ensures
        out == build_state_of(match profile {
            Some(p) => Some(*p),
            None => None,
        }),
{
    let p = match profile {
        None => return BuildState::Unknown,
        Some(p) => p,
    };
    let auto = p.get("auto");
    let status = match auto {
        Some(a) => match a.get("gear_status") {
            Some(s) => s.as_str(),
            None => None,
        },
        None => None,
    };
    match status {
        Some(w) => {
            if str_eq(w, "built") {
                return BuildState::Built;
            } else if str_eq(w, "docs-only") {
                return BuildState::DocsOnly;
            } else {
                return BuildState::Unknown;
            }
        },
        None => {},
    }
    let n = match auto {
        Some(a) => match a.get("crates") {
            Some(c) => match c.get("n") {
                Some(n) => n.as_u64(),
                None => None,
            },
            None => None,
        },
        None => None,
    };
    match n {
        Some(0) => BuildState::DocsOnly,
        Some(_) => BuildState::Built,
        None => BuildState::Unknown,
    }
}

pub open spec fn lookup_json(m: Seq<(String, Json)>, key: Seq<char>) -> Option<Json>
    decreases m.len(),
{
    if m.len() == 0 {
        None
    } else if m[0].0@ == key {
        Some(m[0].1)
    } else {
        lookup_json(m.drop_first(), key)
    }
}

pub open spec fn lookup_terms(m: Seq<(String, Vec<String>)>, key: Seq<char>) -> Option<Seq<String>>
    decreases m.len(),
{
    if m.len() == 0 {
        None
    } else if m[0].0@ == key {
        Some(m[0].1@)
    } else {
        lookup_terms(m.drop_first(), key)
    }
}

/// The terms a capability is searched by: its vocabulary entry, or its own
/// name where the vocabulary has none — and its name again at the end.
pub open spec fn search_words(cap: String, terms: Seq<(String, Vec<String>)>) -> Seq<String> {
    let words = match lookup_terms(terms, cap@) {
        Some(t) => if t.len() > 0 {
            t
        } else {
            seq![cap]
        },
        None => seq![cap],
    };
    words.push(cap)
}

pub open spec fn views_of(v: Seq<String>) -> Seq<Seq<char>> {
    v.map_values(|s: String| s@)
}

/// The terms the haystack mentions, each once, in the order tried.
pub open spec fn why_of(hay: Seq<char>, ws: Seq<String>) -> Seq<Seq<char>>
    decreases ws.len(),
{
    if ws.len() == 0 {
        seq![]
    } else {
        let w = why_of(hay, ws.drop_last());
        let x = ws.last()@;
        if mentions_term(hay, search_term(x)) && !w.contains(x) {
            w.push(x)
        } else {
            w
        }
    }
}

pub struct CandidateV {
    pub name: Seq<char>,
    pub kind: Seq<char>,
    pub score: nat,
    pub why: Seq<Seq<char>>,
    pub built: BuildState,
}

pub open spec fn candidate_view(c: Candidate) -> CandidateV {
    CandidateV { name: c.name@, kind: c.kind@, score: c.score as nat, why: views_of(c.why@), built: c.built }
}

pub open spec fn candidate_views(v: Seq<Candidate>) -> Seq<CandidateV> {
    v.map_values(|c: Candidate| candidate_view(c))
}

/// A component offered for a capability: named, and mentioning at least
/// one of its terms.
pub open spec fn candidate_of(
    cap: String,
    comp: Json,
    profiles: Seq<(String, Json)>,
    terms: Seq<(String, Vec<String>)>,
) -> Option<CandidateV> {
    match str_at(comp, "name"@) {
        None => None,
        Some(n) => {
            let prof = lookup_json(profiles, n);
            let why = why_of(haystack_of(comp, prof), search_words(cap, terms));
            if why.len() == 0 {
                None
            } else {
                Some(
                    CandidateV {
                        name: n,
                        kind: match str_at(comp, "kind"@) {
                            Some(k) => k,
                            None => "gear"@,
                        },
                        score: why.len(),
                        why,
                        built: build_state_of(prof),
                    },
                )
            }
        },
    }
}

pub open spec fn candidates_of(
    cap: String,
    comps: Seq<Json>,
    profiles: Seq<(String, Json)>,
    terms: Seq<(String, Vec<String>)>,
) -> Seq<CandidateV>
    decreases comps.len(),
{
    if comps.len() == 0 {
        seq![]
    } else {
        let rest = candidates_of(cap, comps.drop_last(), profiles, terms);
        match candidate_of(cap, comps.last(), profiles, terms) {
            Some(c) => rest.push(c),
            None => rest,
        }
    }
}

/// Built first, then by score, then by name.
pub open spec fn cand_before(a: CandidateV, b: CandidateV) -> bool {
    ||| build_rank(a.built) < build_rank(b.built)
    ||| build_rank(a.built) == build_rank(b.built) && a.score > b.score
    ||| build_rank(a.built) == build_rank(b.built) && a.score == b.score && seq_lt(a.name, b.name)
}

pub open spec fn cand_insert_at(s: Seq<CandidateV>, x: CandidateV) -> int
    decreases s.len(),
{
    if s.len() == 0 {
        0
    } else if cand_before(x, s[0]) {
        0
    } else {
        1 + cand_insert_at(s.drop_first(), x)
    }
}

/// A stable sort by [`cand_before`].
pub open spec fn sort_cands(s: Seq<CandidateV>) -> Seq<CandidateV>
    decreases s.len(),
{
    if s.len() == 0 {
        s
    } else {
        let sorted = sort_cands(s.drop_last());
        sorted.insert(cand_insert_at(sorted, s.last()), s.last())
    }
}

pub struct PlanRowV {
    pub capability: Seq<char>,
    pub candidates: Seq<CandidateV>,
    pub gap: bool,
    pub unbuilt: bool,
}

pub open spec fn row_view(r: PlanRow) -> PlanRowV {
    PlanRowV { capability: r.capability@, candidates: candidate_views(r.candidates@), gap: r.gap, unbuilt: r.unbuilt }
}

/// A capability's row: its candidates sorted built first, then by score,
/// cut to the shortlist after the sort; a gap when there are none; unbuilt
/// when there are some and none is built.
pub open spec fn row_of(
    cap: String,
    comps: Seq<Json>,
    profiles: Seq<(String, Json)>,
    terms: Seq<(String, Vec<String>)>,
) -> PlanRowV {
    let sorted = sort_cands(candidates_of(cap, comps, profiles, terms));
    PlanRowV {
        capability: cap@,
        candidates: if sorted.len() <= SHORTLIST { sorted } else { sorted.take(SHORTLIST as int) },
        gap: sorted.len() == 0,
        unbuilt: sorted.len() > 0 && !(exists|k: int| 0 <= k < sorted.len() && (#[trigger] sorted[k]).built == BuildState::Built),
    }
}

pub(crate) fn lookup_json_exec<'a>(m: &'a [(String, Json)], key: &str) -> (r: Option<&'a Json>)
    ensures
        match r {
            Some(j) => lookup_json(m@, key@) == Some(*j),
            None => lookup_json(m@, key@) is None,
        },
{
    let n = m.len();
    let mut i: usize = 0;
    proof {
        assert(m@.skip(0) == m@);
    }
    while i < n
        invariant
            n == m@.len(),
            i <= n,
            lookup_json(m@, key@) == lookup_json(m@.skip(i as int), key@),
        decreases n - i,
    {
        proof {
            assert(m@.skip(i as int)[0] == m@[i as int]);
            assert(m@.skip(i as int).drop_first() == m@.skip(i + 1));
        }
        if str_eq(m[i].0.as_str(), key) {
            return Some(&m[i].1);
        }
        i = i + 1;
    }
    None
}

fn lookup_terms_exec<'a>(m: &'a [(String, Vec<String>)], key: &str) -> (r: Option<&'a Vec<String>>)
    ensures
        match r {
            Some(t) => lookup_terms(m@, key@) == Some(t@),
            None => lookup_terms(m@, key@) is None,
        },
{
    let n = m.len();
    let mut i: usize = 0;
    proof {
        assert(m@.skip(0) == m@);
    }
    while i < n
        invariant
            n == m@.len(),
            i <= n,
            lookup_terms(m@, key@) == lookup_terms(m@.skip(i as int), key@),
        decreases n - i,
    {
        proof {
            assert(m@.skip(i as int)[0] == m@[i as int]);
            assert(m@.skip(i as int).drop_first() == m@.skip(i + 1));
        }
        if str_eq(m[i].0.as_str(), key) {
            return Some(&m[i].1);
        }
        i = i + 1;
    }
    None
}

fn search_words_exec(cap: &String, terms: &[(String, Vec<String>)]) -> (out: Vec<String>)
    ensures
        views_of(out@) == views_of(search_words(*cap, terms@)),
{
    let mut out: Vec<String> = Vec::new();
    let ghost sw = search_words(*cap, terms@);
    match lookup_terms_exec(terms, cap.as_str()) {
        Some(t) => {
            if t.len() > 0 {
                let n = t.len();
                for i in 0..n
                    invariant
                        n == t@.len(),
                        views_of(out@) == views_of(t@.take(i as int)),
                {
                    let ghost before = views_of(out@);
                    out.push(t[i].clone());
                    proof {
                        assert(views_of(out@) =~= before.push(t@[i as int]@));
                        assert(views_of(t@.take(i + 1)) =~= views_of(t@.take(i as int)).push(t@[i as int]@));
                    }
                }
                proof {
                    assert(t@.take(n as int) == t@);
                }
            } else {
                out.push(cap.clone());
                proof {
                    assert(views_of(out@) =~= views_of(seq![*cap]));
                }
            }
        },
        None => {
            out.push(cap.clone());
            proof {
                assert(views_of(out@) =~= views_of(seq![*cap]));
            }
        },
    }
    let ghost before = views_of(out@);
    out.push(cap.clone());
    proof {
        assert(views_of(out@) =~= before.push(cap@));
        let words = sw.drop_last();
        assert(sw == words.push(*cap));
        assert(views_of(sw) =~= views_of(words).push(cap@));
    }
    out
}

fn contains_string(v: &Vec<String>, x: &String) -> (r: bool)
    ensures
        r == views_of(v@).contains(x@),
{
    let n = v.len();
    for i in 0..n
        invariant
            n == v@.len(),
            forall|j: int| 0 <= j < i ==> v@[j]@ != x@,
    {
        if str_eq(v[i].as_str(), x.as_str()) {
            assert(views_of(v@)[i as int] == x@);
            return true;
        }
    }
    proof {
        assert forall|j: int| 0 <= j < views_of(v@).len() implies views_of(v@)[j] != x@ by {
            assert(views_of(v@)[j] == v@[j]@);
        }
    }
    false
}

fn candidate_for(
    cap: &String,
    words: &Vec<String>,
    comp: &Json,
    profiles: &[(String, Json)],
    terms: &[(String, Vec<String>)],
) -> (r: Option<Candidate>)
    requires
        views_of(words@) == views_of(search_words(*cap, terms@)),
    ensures
        match r {
            Some(c) => candidate_of(*cap, *comp, profiles@, terms@) == Some(candidate_view(c)),
            None => candidate_of(*cap, *comp, profiles@, terms@) is None,
        },
{
    let name = match comp.str_at("name") {
        Some(n) => n,
        None => return None,
    };
    let prof = lookup_json_exec(profiles, name);
    let hay = haystack(comp, prof);
    let ghost sw = search_words(*cap, terms@);
    let nw = words.len();
    let mut why: Vec<String> = Vec::new();
    proof {
        assert(views_of(sw).len() == sw.len());
        assert(views_of(words@).len() == words@.len());
    }
    for i in 0..nw
        invariant
            nw == words@.len(),
            nw == sw.len(),
            views_of(words@) == views_of(sw),
            sw == search_words(*cap, terms@),
            hay@ == haystack_of(*comp, lookup_json(profiles@, name@)),
            str_at(*comp, "name"@) == Some(name@),
            views_of(why@) == why_of(hay@, sw.take(i as int)),
    {
        proof {
            assert(views_of(words@)[i as int] == views_of(sw)[i as int]);
            assert(words@[i as int]@ == sw[i as int]@);
            assert(sw.take(i + 1).drop_last() == sw.take(i as int));
            assert(sw.take(i + 1).last() == sw[i as int]);
        }
        if mentions(hay.as_str(), words[i].as_str()) && !contains_string(&why, &words[i]) {
            let ghost before = views_of(why@);
            why.push(words[i].clone());
            proof {
                assert(views_of(why@) =~= before.push(words@[i as int]@));
            }
        }
    }
    proof {
        assert(views_of(words@).len() == nw);
        assert(sw.take(nw as int) == sw);
    }
    if why.len() == 0 {
        return None;
    }
    let kind = match comp.str_at("kind") {
        Some(k) => k.to_owned(),
        None => "gear".to_owned(),
    };
    let built = build_state(prof);
    let score = why.len();
    Some(Candidate { name: name.to_owned(), kind, score, why, built })
}

fn insert_candidate(out: &mut Vec<Candidate>, x: Candidate)
    ensures
        candidate_views(final(out)@) == candidate_views(old(out)@).insert(
            cand_insert_at(candidate_views(old(out)@), candidate_view(x)),
            candidate_view(x),
        ),
{
    let ghost sorted = candidate_views(out@);
    let xn = chars_of(x.name.as_str());
    let mut k: usize = 0;
    proof {
        assert(sorted.skip(0) == sorted);
    }
    while k < out.len() && !(x.built.rank() < out[k].built.rank() || (x.built.rank() == out[k].built.rank()
        && x.score > out[k].score) || (x.built.rank() == out[k].built.rank() && x.score == out[k].score
        && lex_lt(&xn, &chars_of(out[k].name.as_str()))))
        invariant
            0 <= k <= out@.len(),
            sorted == candidate_views(out@),
            xn@ == x.name@,
            cand_insert_at(sorted, candidate_view(x)) == k + cand_insert_at(sorted.skip(k as int), candidate_view(x)),
        decreases out@.len() - k,
    {
        proof {
            assert(sorted.skip(k as int)[0] == candidate_view(out@[k as int]));
            assert(sorted.skip(k as int).drop_first() == sorted.skip(k + 1));
        }
        k += 1;
    }
    proof {
        if k < out@.len() {
            assert(sorted.skip(k as int)[0] == candidate_view(out@[k as int]));
        }
    }
    let ghost xv = candidate_view(x);
    out.insert(k, x);
    proof {
        assert(candidate_views(out@) =~= sorted.insert(k as int, xv));
    }
}

/// Every candidate for `cap`, in the order a row lists them, before the
/// shortlist is cut.
pub(crate) fn sorted_candidates(
    cap: &String,
    comps: &[Json],
    profiles: &[(String, Json)],
    terms: &[(String, Vec<String>)],
) -> (out: Vec<Candidate>)
    ensures
        candidate_views(out@) == sort_cands(candidates_of(*cap, comps@, profiles@, terms@)),
{
    let words = search_words_exec(cap, terms);
    let n = comps.len();
    let mut cands: Vec<Candidate> = Vec::new();
    for k in 0..n
        invariant
            n == comps@.len(),
            views_of(words@) == views_of(search_words(*cap, terms@)),
            candidate_views(cands@) == sort_cands(candidates_of(*cap, comps@.take(k as int), profiles@, terms@)),
    {
        proof {
            assert(comps@.take(k + 1).drop_last() == comps@.take(k as int));
            assert(comps@.take(k + 1).last() == comps@[k as int]);
        }
        let ghost prev = candidates_of(*cap, comps@.take(k as int), profiles@, terms@);
        let ghost cs = candidates_of(*cap, comps@.take(k + 1), profiles@, terms@);
        match candidate_for(cap, &words, &comps[k], profiles, terms) {
            Some(c) => {
                proof {
                    assert(cs == prev.push(candidate_view(c)));
                    assert(cs.drop_last() == prev);
                    assert(cs.last() == candidate_view(c));
                }
                insert_candidate(&mut cands, c);
            },
            None => {
                proof {
                    assert(cs == prev);
                }
            },
        }
    }
    proof {
        assert(comps@.take(n as int) == comps@);
    }
    cands
}

fn row_for(cap: &String, comps: &[Json], profiles: &[(String, Json)], terms: &[(String, Vec<String>)]) -> (r: PlanRow)
    ensures
        row_view(r) == row_of(*cap, comps@, profiles@, terms@),
{
    let mut cands = sorted_candidates(cap, comps, profiles, terms);
    let ghost sorted = candidate_views(cands@);
    let total = cands.len();
    let mut any_built = false;
    for k in 0..total
        invariant
            total == cands@.len(),
            sorted == candidate_views(cands@),
            any_built == exists|j: int| 0 <= j < k && (#[trigger] sorted[j]).built == BuildState::Built,
    {
        if cands[k].built == BuildState::Built {
            assert(sorted[k as int].built == BuildState::Built);
            any_built = true;
        }
    }
    let unbuilt = total > 0 && !any_built;
    cands.truncate(SHORTLIST);
    proof {
        if total > SHORTLIST {
            assert(candidate_views(cands@) =~= sorted.take(SHORTLIST as int));
        } else {
            assert(candidate_views(cands@) =~= sorted);
        }
    }
    PlanRow { capability: cap.clone(), gap: total == 0, unbuilt, candidates: cands }
}

/// Resolve capabilities to candidate components, one row per capability.
///
/// `terms` is the workspace's capability vocabulary: a capability with terms
/// of its own is searched by them; one the vocabulary does not know is
/// matched against its own name. Candidates are sorted built first, then by
/// how many terms they mention, then by name, and the cut to the shortlist
/// comes after the sort.
pub fn plan(
    capabilities: &[String],
    components: &[Json],
    profiles: &[(String, Json)],
    terms: &[(String, Vec<String>)],
) -> (out: Vec<PlanRow>)
    requires
        keys_unique(profiles@),
        keys_unique(terms@),
    ensures
        out@.len() == capabilities@.len(),
        forall|i: int| 0 <= i < out@.len() ==> row_view(#[trigger] out@[i]) == row_of(capabilities@[i], components@, profiles@, terms@),
{
    let n = capabilities.len();
    let mut out: Vec<PlanRow> = Vec::new();
    for i in 0..n
        invariant
            n == capabilities@.len(),
            out@.len() == i,
            forall|j: int| 0 <= j < i ==> row_view(#[trigger] out@[j]) == row_of(capabilities@[j], components@, profiles@, terms@),
    {
        let row = row_for(&capabilities[i], components, profiles, terms);
        out.push(row);
    }
    out
}

/// The first `n` profiles keyed by the gear they describe (`gear_name`), a
/// later profile of the same gear replacing an earlier one; a profile that
/// names no gear is left out.
pub open spec fn profiles_map(values: Seq<Json>, n: int) -> VMap
    decreases n,
{
    if n <= 0 || n > values.len() {
        seq![]
    } else {
        let m = profiles_map(values, n - 1);
        match str_at(values[n - 1], "gear_name"@) {
            Some(name) => vmap_put(m, name, json_view(values[n - 1])),
            None => m,
        }
    }
}

/// Gear profiles keyed by the gear they describe.
pub fn profiles_by_gear(values: Vec<Json>) -> (out: Vec<(String, Json)>)
    ensures
        member_views(out@) == profiles_map(values@, values@.len() as int),
{
    let mut out: Vec<(String, Json)> = Vec::new();
    let n = values.len();
    let mut rest = values;
    let ghost all = rest@;
    let mut i: usize = 0;
    while i < n
        invariant
            n == all.len(),
            i <= n,
            rest@ == all.skip(i as int),
            member_views(out@) == profiles_map(all, i as int),
        decreases n - i,
    {
        let value = rest.remove(0);
        proof {
            assert(value == all[i as int]);
            assert(rest@ =~= all.skip(i + 1));
        }
        let name = match value.str_at("gear_name") {
            Some(name) => Some(name.to_string()),
            None => None,
        };
        match name {
            Some(name) => {
                map_put(&mut out, name, value);
            },
            None => {},
        }
        i = i + 1;
    }
    out
}

} // verus!
