//! Spec against code for one project: which of the catalogue's gears and
//! plugins the code depends on, which declared capability each of them
//! implements, what is missing, and what the code uses that no capability
//! accounts for.

use vstd::prelude::*;

use crate::text::string_views;

use crate::components_catalog::compose::{
    candidate_views, cand_insert_at, candidates_of, lookup_json, lookup_json_exec, sort_cands, sorted_candidates, CandidateV,
};
use crate::components_catalog::values::{lemma_member_views_at, lemma_member_views_len, resolve, resolve_of, vmap_get};
use crate::json::{json_view, member_views, str_at, Json, JsonV};
use crate::text::{
    chars_of, keys_unique, lemma_seq_lt_total, lemma_seq_lt_transitive, lex_lt, seq_lt, split_char,
    split_char_exec, str_eq, string_of, trim, trim_chars,
};

verus! {

/// The name `c` adds to the code's components: a gear or a plugin of the
/// catalogue that the code's manifests depend on.
pub open spec fn in_code_name(c: Json, deps: Seq<Seq<char>>) -> Option<Seq<char>> {
    match (str_at(c, "kind"@), str_at(c, "name"@)) {
        (Some(k), Some(n)) => if (k == "gear"@ || k == "plugin"@) && deps.contains(n) {
            Some(n)
        } else {
            None
        },
        _ => None,
    }
}

/// Strictly ascending, so each name once.
pub open spec fn ascending(v: Seq<Seq<char>>) -> bool {
    forall|i: int, j: int| 0 <= i < j < v.len() ==> seq_lt(#[trigger] v[i], #[trigger] v[j])
}

/// `v` lists, once each and in order, the names the code's components have.
pub open spec fn is_in_code(v: Seq<Seq<char>>, comps: Seq<Json>, deps: Seq<Seq<char>>) -> bool {
    &&& ascending(v)
    &&& forall|x: Seq<char>| #[trigger] v.contains(x) <==> exists|k: int| 0 <= k < comps.len() && in_code_name(#[trigger] comps[k], deps) == Some(x)
}


fn contains_str(v: &[String], x: &str) -> (r: bool)
    ensures
        r == string_views(v@).contains(x@),
{
    let n = v.len();
    for i in 0..n
        invariant
            n == v@.len(),
            forall|j: int| 0 <= j < i ==> v@[j]@ != x@,
    {
        if str_eq(v[i].as_str(), x) {
            assert(string_views(v@)[i as int] == x@);
            return true;
        }
    }
    proof {
        if string_views(v@).contains(x@) {
            let j = choose|j: int| 0 <= j < string_views(v@).len() && string_views(v@)[j] == x@;
            assert(v@[j]@ == x@);
        }
    }
    false
}

/// Put `x` into the ascending list `v`, unless it is there already.
fn insert_ascending(v: &mut Vec<String>, x: &str)
    requires
        ascending(string_views(old(v)@)),
    ensures
        ascending(string_views(final(v)@)),
        forall|y: Seq<char>| string_views(final(v)@).contains(y) <==> (string_views(old(v)@).contains(y) || y == x@),
{
    let ghost sv = string_views(v@);
    let xv = chars_of(x);
    let n = v.len();
    let mut k: usize = 0;
    while k < n
        invariant
            n == v@.len(),
            sv == string_views(v@),
            k <= n,
            xv@ == x@,
            forall|j: int| 0 <= j < k ==> seq_lt(#[trigger] sv[j], x@),
        ensures
            k < n ==> !seq_lt(sv[k as int], x@),
            forall|j: int| 0 <= j < k ==> seq_lt(#[trigger] sv[j], x@),
            k <= n,
        decreases n - k,
    {
        let here = chars_of(v[k].as_str());
        assert(sv[k as int] == v@[k as int]@);
        if !lex_lt(&here, &xv) {
            break;
        }
        k = k + 1;
    }
    if k < n && str_eq(v[k].as_str(), x) {
        assert(sv[k as int] == x@);
        return;
    }
    proof {
        if k < n {
            lemma_seq_lt_total(sv[k as int], x@);
            assert(seq_lt(x@, sv[k as int]));
            assert forall|j: int| k <= j < n implies seq_lt(x@, #[trigger] sv[j]) by {
                if j > k {
                    lemma_seq_lt_transitive(x@, sv[k as int], sv[j]);
                }
            }
        }
    }
    v.insert(k, x.to_owned());
    proof {
        let nv = string_views(v@);
        assert(nv =~= sv.insert(k as int, x@));
        assert forall|i: int, j: int| 0 <= i < j < nv.len() implies seq_lt(#[trigger] nv[i], #[trigger] nv[j]) by {
            if i < k && j < k {
            } else if i < k && j == k {
            } else if i < k && j > k {
                assert(nv[j] == sv[j - 1]);
            } else if i == k {
                assert(nv[j] == sv[j - 1]);
            } else {
                assert(nv[i] == sv[i - 1]);
                assert(nv[j] == sv[j - 1]);
            }
        }
        assert forall|y: Seq<char>| nv.contains(y) <==> (sv.contains(y) || y == x@) by {
            if nv.contains(y) {
                let i = choose|i: int| 0 <= i < nv.len() && nv[i] == y;
                if i < k {
                    assert(sv[i] == y);
                } else if i > k {
                    assert(sv[i - 1] == y);
                }
            }
            if sv.contains(y) {
                let i = choose|i: int| 0 <= i < sv.len() && sv[i] == y;
                if i < k {
                    assert(nv[i] == y);
                } else {
                    assert(nv[i + 1] == y);
                }
            }
            if y == x@ {
                assert(nv[k as int] == y);
            }
        }
    }
}

/// The catalogue components the code is made of: the gears and plugins its
/// manifests depend on, by name, ascending, each once. SDK crates and
/// libraries are how a gear is used, not what the product is made of.
pub fn components_in_code(components: &[Json], deps: &[String]) -> (out: Vec<String>)
    ensures
        is_in_code(string_views(out@), components@, string_views(deps@)),
{
    let mut out: Vec<String> = Vec::new();
    let n = components.len();
    let ghost dv = string_views(deps@);
    for k in 0..n
        invariant
            n == components@.len(),
            dv == string_views(deps@),
            ascending(string_views(out@)),
            forall|x: Seq<char>| #[trigger] string_views(out@).contains(x) <==> exists|j: int| 0 <= j < k && in_code_name(#[trigger] components@[j], dv) == Some(x),
    {
        let c = &components[k];
        let ghost before = string_views(out@);
        match (c.str_at("kind"), c.str_at("name")) {
            (Some(kind), Some(name)) => {
                if (str_eq(kind, "gear") || str_eq(kind, "plugin")) && contains_str(deps, name) {
                    insert_ascending(&mut out, name);
                    proof {
                        assert(in_code_name(components@[k as int], dv) == Some(name@));
                        assert forall|x: Seq<char>| #[trigger] string_views(out@).contains(x) <==> exists|j: int| 0 <= j < k + 1 && in_code_name(#[trigger] components@[j], dv) == Some(x) by {
                            if x == name@ {
                                assert(in_code_name(components@[k as int], dv) == Some(x));
                            }
                            if exists|j: int| 0 <= j < k + 1 && in_code_name(#[trigger] components@[j], dv) == Some(x) {
                                let j = choose|j: int| 0 <= j < k + 1 && in_code_name(#[trigger] components@[j], dv) == Some(x);
                                if j < k {
                                    assert(before.contains(x));
                                }
                            }
                        }
                    }
                } else {
                    proof {
                        assert(in_code_name(components@[k as int], dv) is None);
                        assert forall|x: Seq<char>| #[trigger] string_views(out@).contains(x) <==> exists|j: int| 0 <= j < k + 1 && in_code_name(#[trigger] components@[j], dv) == Some(x) by {
                            if exists|j: int| 0 <= j < k + 1 && in_code_name(#[trigger] components@[j], dv) == Some(x) {
                                let j = choose|j: int| 0 <= j < k + 1 && in_code_name(#[trigger] components@[j], dv) == Some(x);
                                assert(j < k);
                            }
                        }
                    }
                }
            },
            _ => {
                proof {
                    assert(in_code_name(components@[k as int], dv) is None);
                    assert forall|x: Seq<char>| #[trigger] string_views(out@).contains(x) <==> exists|j: int| 0 <= j < k + 1 && in_code_name(#[trigger] components@[j], dv) == Some(x) by {
                        if exists|j: int| 0 <= j < k + 1 && in_code_name(#[trigger] components@[j], dv) == Some(x) {
                            let j = choose|j: int| 0 <= j < k + 1 && in_code_name(#[trigger] components@[j], dv) == Some(x);
                            assert(j < k);
                        }
                    }
                }
            },
        }
    }
    out
}

/// The candidates, in order, that the code is made of.
pub open spec fn implementers(cs: Seq<CandidateV>, in_code: Seq<Seq<char>>) -> Seq<Seq<char>>
    decreases cs.len(),
{
    if cs.len() == 0 {
        seq![]
    } else if in_code.contains(cs.last().name) {
        implementers(cs.drop_last(), in_code).push(cs.last().name)
    } else {
        implementers(cs.drop_last(), in_code)
    }
}

pub open spec fn cand_names(cs: Seq<CandidateV>) -> Seq<Seq<char>> {
    cs.map_values(|c: CandidateV| c.name)
}

/// How many candidates a missing capability is offered with.
pub const SUGGESTED: usize = 3;

/// One declared capability against the code.
#[derive(Debug, Clone, PartialEq)]
pub struct ConformanceRow {
    pub capability: String,
    /// `implemented` or `missing`.
    pub status: String,
    /// The components in the code that fill it.
    pub implemented_by: Vec<String>,
    /// For a missing capability, the first few components that could.
    pub candidates: Vec<String>,
}

pub struct ConformanceRowV {
    pub capability: Seq<char>,
    pub status: Seq<char>,
    pub implemented_by: Seq<Seq<char>>,
    pub candidates: Seq<Seq<char>>,
}

impl View for ConformanceRow {
    type V = ConformanceRowV;

    open spec fn view(&self) -> ConformanceRowV {
        ConformanceRowV {
            capability: self.capability@,
            status: self.status@,
            implemented_by: string_views(self.implemented_by@),
            candidates: string_views(self.candidates@),
        }
    }
}

/// A capability is implemented when a component of the code is among all
/// its candidates; a missing one is offered the first three candidates.
pub open spec fn conformance_row_of(
    cap: String,
    comps: Seq<Json>,
    profiles: Seq<(String, Json)>,
    terms: Seq<(String, Vec<String>)>,
    in_code: Seq<Seq<char>>,
) -> ConformanceRowV {
    let all = sort_cands(candidates_of(cap, comps, profiles, terms));
    let by = implementers(all, in_code);
    let missing = by.len() == 0;
    ConformanceRowV {
        capability: cap@,
        status: if missing { "missing"@ } else { "implemented"@ },
        implemented_by: by,
        candidates: if missing {
            cand_names(if all.len() <= SUGGESTED { all } else { all.take(SUGGESTED as int) })
        } else {
            seq![]
        },
    }
}

fn conformance_row(
    cap: &String,
    comps: &[Json],
    profiles: &[(String, Json)],
    terms: &[(String, Vec<String>)],
    in_code: &Vec<String>,
) -> (out: ConformanceRow)
    ensures
        out@ == conformance_row_of(*cap, comps@, profiles@, terms@, string_views(in_code@)),
{
    let all = sorted_candidates(cap, comps, profiles, terms);
    let ghost av = candidate_views(all@);
    let ghost ic = string_views(in_code@);
    let n = all.len();
    let mut by: Vec<String> = Vec::new();
    for i in 0..n
        invariant
            n == all@.len(),
            av == candidate_views(all@),
            av.len() == n,
            ic == string_views(in_code@),
            string_views(by@) == implementers(av.take(i as int), ic),
    {
        proof {
            assert(av.take(i + 1).drop_last() == av.take(i as int));
            assert(av.take(i + 1).last() == av[i as int]);
            assert(av[i as int].name == all@[i as int].name@);
        }
        if contains_str(in_code.as_slice(), all[i].name.as_str()) {
            let ghost before = string_views(by@);
            by.push(all[i].name.clone());
            proof {
                assert(string_views(by@) =~= before.push(av[i as int].name));
            }
        }
    }
    proof {
        assert(av.take(n as int) == av);
    }
    let missing = by.len() == 0;
    let mut cands: Vec<String> = Vec::new();
    if missing {
        let k: usize = if n <= SUGGESTED { n } else { SUGGESTED };
        for i in 0..k
            invariant
                k <= n,
                n == all@.len(),
                av == candidate_views(all@),
                string_views(cands@) == cand_names(av.take(i as int)),
        {
            let ghost before = string_views(cands@);
            cands.push(all[i].name.clone());
            proof {
                assert(cand_names(av.take(i + 1)) =~= cand_names(av.take(i as int)).push(av[i as int].name));
                assert(string_views(cands@) =~= before.push(av[i as int].name));
            }
        }
        proof {
            if n <= SUGGESTED {
                assert(av.take(k as int) == av);
            }
        }
    }
    let status = if missing { "missing".to_owned() } else { "implemented".to_owned() };
    proof {
        if !missing {
            assert(string_views(cands@) =~= Seq::<Seq<char>>::empty());
        }
        assert(string_views(by@) == implementers(av, ic));
    }
    ConformanceRow { capability: cap.clone(), status, implemented_by: by, candidates: cands }
}

/// The first component named `name`.
pub open spec fn named_component(comps: Seq<Json>, name: Seq<char>) -> Option<Json>
    decreases comps.len(),
{
    if comps.len() == 0 {
        None
    } else if str_at(comps[0], "name"@) == Some(name) {
        Some(comps[0])
    } else {
        named_component(comps.drop_first(), name)
    }
}

/// The text of a shown field: its `v`, or the field itself when it is a
/// plain string; otherwise nothing.
pub open spec fn field_text(f: Option<JsonV>) -> Seq<char> {
    match f {
        Some(JsonV::Object(m)) => match vmap_get(m, "v"@) {
            Some(JsonV::Str(s)) => s,
            _ => seq![],
        },
        Some(JsonV::Str(s)) => s,
        _ => seq![],
    }
}

/// The trimmed pieces that are not blank, in order.
pub open spec fn filled_pieces(parts: Seq<Seq<char>>) -> Seq<Seq<char>>
    decreases parts.len(),
{
    if parts.len() == 0 {
        seq![]
    } else if trim(parts.last()).len() > 0 {
        filled_pieces(parts.drop_last()).push(trim(parts.last()))
    } else {
        filled_pieces(parts.drop_last())
    }
}

/// The capabilities a component declares itself: its resolved
/// `capabilities` field, split on commas.
pub open spec fn declares_of(comps: Seq<Json>, profiles: Seq<(String, Json)>, name: Seq<char>) -> Seq<Seq<char>> {
    match named_component(comps, name) {
        None => seq![],
        Some(node) => filled_pieces(
            split_char(field_text(vmap_get(resolve_of(node, lookup_json(profiles, name)), "capabilities"@)), ','),
        ),
    }
}

fn named_component_exec<'a>(comps: &'a [Json], name: &str) -> (r: Option<&'a Json>)
    ensures
        match r {
            Some(c) => named_component(comps@, name@) == Some(*c),
            None => named_component(comps@, name@) is None,
        },
{
    let n = comps.len();
    let mut i: usize = 0;
    proof {
        assert(comps@.skip(0) == comps@);
    }
    while i < n
        invariant
            n == comps@.len(),
            i <= n,
            named_component(comps@, name@) == named_component(comps@.skip(i as int), name@),
        decreases n - i,
    {
        proof {
            assert(comps@.skip(i as int)[0] == comps@[i as int]);
            assert(comps@.skip(i as int).drop_first() == comps@.skip(i + 1));
        }
        match comps[i].str_at("name") {
            Some(nm) => {
                if str_eq(nm, name) {
                    return Some(&comps[i]);
                }
            },
            None => {},
        }
        i = i + 1;
    }
    None
}

/// The first member of `m` named `key`, as [`vmap_get`] reads it.
fn member_lookup<'a>(m: &'a Vec<(String, Json)>, key: &str) -> (r: Option<&'a Json>)
    ensures
        match r {
            Some(j) => vmap_get(member_views(m@), key@) == Some(json_view(*j)),
            None => vmap_get(member_views(m@), key@) is None,
        },
{
    let ghost mv = member_views(m@);
    proof {
        lemma_member_views_len(m@);
        assert(mv.skip(0) == mv);
    }
    let n = m.len();
    let mut i: usize = 0;
    while i < n
        invariant
            n == m@.len(),
            mv == member_views(m@),
            mv.len() == n,
            i <= n,
            vmap_get(mv, key@) == vmap_get(mv.skip(i as int), key@),
        decreases n - i,
    {
        proof {
            lemma_member_views_at(m@, i as int);
            assert(mv.skip(i as int)[0] == mv[i as int]);
            assert(mv.skip(i as int).drop_first() == mv.skip(i + 1));
        }
        if str_eq(m[i].0.as_str(), key) {
            return Some(&m[i].1);
        }
        i = i + 1;
    }
    None
}

fn field_text_exec(f: Option<&Json>) -> (out: Vec<char>)
    ensures
        out@ == field_text(match f {
            Some(j) => Some(json_view(*j)),
            None => None,
        }),
{
    match f {
        Some(Json::Object(m)) => match member_lookup(m, "v") {
            Some(Json::Str(s)) => chars_of(s.as_str()),
            _ => Vec::new(),
        },
        Some(Json::Str(s)) => chars_of(s.as_str()),
        _ => Vec::new(),
    }
}

fn declares(comps: &[Json], profiles: &[(String, Json)], name: &str) -> (out: Vec<String>)
    ensures
        string_views(out@) == declares_of(comps@, profiles@, name@),
{
    let node = match named_component_exec(comps, name) {
        Some(c) => c,
        None => return Vec::new(),
    };
    let values = resolve(node, lookup_json_exec(profiles, name));
    let text = field_text_exec(member_lookup(&values, "capabilities"));
    let parts = split_char_exec(&text, ',');
    let ghost pv = parts@.map_values(|p: Vec<char>| p@);
    let n = parts.len();
    let mut out: Vec<String> = Vec::new();
    for i in 0..n
        invariant
            n == parts@.len(),
            pv == parts@.map_values(|p: Vec<char>| p@),
            string_views(out@) == filled_pieces(pv.take(i as int)),
    {
        proof {
            assert(pv.take(i + 1).drop_last() == pv.take(i as int));
            assert(pv.take(i + 1).last() == parts@[i as int]@);
        }
        let t = trim_chars(&parts[i]);
        if t.len() > 0 {
            let ghost before = string_views(out@);
            out.push(string_of(&t));
            proof {
                assert(string_views(out@) =~= before.push(t@));
            }
        }
    }
    proof {
        assert(pv.take(n as int) == pv);
    }
    out
}

/// A component the code uses that no declared capability accounts for.
#[derive(Debug, Clone, PartialEq)]
pub struct Unexplained {
    pub name: String,
    /// The capabilities it declares itself, if any: what the specs may be
    /// missing.
    pub declares: Vec<String>,
}

pub struct UnexplainedV {
    pub name: Seq<char>,
    pub declares: Seq<Seq<char>>,
}

impl View for Unexplained {
    type V = UnexplainedV;

    open spec fn view(&self) -> UnexplainedV {
        UnexplainedV { name: self.name@, declares: string_views(self.declares@) }
    }
}

/// Spec against code.
#[derive(Debug, Clone, PartialEq)]
pub struct ConformanceReport {
    /// Catalogue components the code depends on, ascending.
    pub components_in_code: Vec<String>,
    /// One row per declared capability.
    pub items: Vec<ConformanceRow>,
    pub total: usize,
    pub unexplained: Vec<Unexplained>,
}

pub open spec fn row_views(v: Seq<ConformanceRow>) -> Seq<ConformanceRowV> {
    v.map_values(|r: ConformanceRow| r@)
}

pub open spec fn unexplained_views(v: Seq<Unexplained>) -> Seq<UnexplainedV> {
    v.map_values(|u: Unexplained| u@)
}

/// Some row names `x` among the components implementing it.
pub open spec fn explained(rows: Seq<ConformanceRowV>, x: Seq<char>) -> bool {
    exists|i: int| 0 <= i < rows.len() && (#[trigger] rows[i]).implemented_by.contains(x)
}

/// The components of the code, in order, that no row explains, each with
/// what it declares.
pub open spec fn unexplained_of(
    in_code: Seq<Seq<char>>,
    rows: Seq<ConformanceRowV>,
    comps: Seq<Json>,
    profiles: Seq<(String, Json)>,
) -> Seq<UnexplainedV>
    decreases in_code.len(),
{
    if in_code.len() == 0 {
        seq![]
    } else if explained(rows, in_code.last()) {
        unexplained_of(in_code.drop_last(), rows, comps, profiles)
    } else {
        unexplained_of(in_code.drop_last(), rows, comps, profiles).push(
            UnexplainedV { name: in_code.last(), declares: declares_of(comps, profiles, in_code.last()) },
        )
    }
}

fn is_explained(rows: &Vec<ConformanceRow>, x: &str) -> (r: bool)
    ensures
        r == explained(row_views(rows@), x@),
{
    let ghost rv = row_views(rows@);
    let n = rows.len();
    for i in 0..n
        invariant
            n == rows@.len(),
            rv == row_views(rows@),
            forall|j: int| 0 <= j < i ==> !(#[trigger] rv[j]).implemented_by.contains(x@),
    {
        if contains_str(rows[i].implemented_by.as_slice(), x) {
            assert(rv[i as int].implemented_by.contains(x@));
            return true;
        }
        assert(!rv[i as int].implemented_by.contains(x@));
    }
    false
}

/// Compare what a project's specs declare with what its code is made of.
///
/// The code's components are the catalogue's gears and plugins named in
/// `deps`. Each capability is `implemented` when one of those is among its
/// candidates (all of them, not only the shortlist), else `missing` with the
/// first three candidates suggested. A component of the code that no
/// capability accounts for is listed with the capabilities it declares.
pub fn conformance_report(
    capabilities: &[String],
    components: &[Json],
    profiles: &[(String, Json)],
    terms: &[(String, Vec<String>)],
    deps: &[String],
) -> (out: ConformanceReport)
    requires
        keys_unique(profiles@),
        keys_unique(terms@),
    ensures
        is_in_code(string_views(out.components_in_code@), components@, string_views(deps@)),
        out.items@.len() == capabilities@.len(),
        forall|i: int| 0 <= i < capabilities@.len() ==> (#[trigger] out.items@[i])@ == conformance_row_of(
            capabilities@[i],
            components@,
            profiles@,
            terms@,
            string_views(out.components_in_code@),
        ),
        out.total == capabilities@.len(),
        unexplained_views(out.unexplained@) == unexplained_of(
            string_views(out.components_in_code@),
            row_views(out.items@),
            components@,
            profiles@,
        ),
{
    let in_code = components_in_code(components, deps);
    let ghost ic = string_views(in_code@);
    let n = capabilities.len();
    let mut items: Vec<ConformanceRow> = Vec::new();
    for i in 0..n
        invariant
            n == capabilities@.len(),
            ic == string_views(in_code@),
            items@.len() == i,
            forall|j: int| 0 <= j < i ==> (#[trigger] items@[j])@ == conformance_row_of(
                capabilities@[j],
                components@,
                profiles@,
                terms@,
                ic,
            ),
    {
        let row = conformance_row(&capabilities[i], components, profiles, terms, &in_code);
        items.push(row);
    }
    let ghost rv = row_views(items@);
    let m = in_code.len();
    let mut unexplained: Vec<Unexplained> = Vec::new();
    for k in 0..m
        invariant
            m == in_code@.len(),
            ic == string_views(in_code@),
            rv == row_views(items@),
            unexplained_views(unexplained@) == unexplained_of(ic.take(k as int), rv, components@, profiles@),
    {
        proof {
            assert(ic.take(k + 1).drop_last() == ic.take(k as int));
            assert(ic.take(k + 1).last() == in_code@[k as int]@);
        }
        if !is_explained(&items, in_code[k].as_str()) {
            let d = declares(components, profiles, in_code[k].as_str());
            let u = Unexplained { name: in_code[k].clone(), declares: d };
            let ghost before = unexplained_views(unexplained@);
            unexplained.push(u);
            proof {
                assert(unexplained_views(unexplained@) =~= before.push(u@));
            }
        }
    }
    proof {
        assert(ic.take(m as int) == ic);
    }
    ConformanceReport { components_in_code: in_code, items, total: n, unexplained }
}

proof fn lemma_cand_insert_at_bounds(s: Seq<CandidateV>, x: CandidateV)
    ensures
        0 <= cand_insert_at(s, x) <= s.len(),
    decreases s.len(),
{
    if s.len() > 0 {
        lemma_cand_insert_at_bounds(s.drop_first(), x);
    }
}

/// Ranking the candidates keeps every one of them and adds none.
proof fn lemma_sort_cands_members(s: Seq<CandidateV>)
    ensures
        sort_cands(s).len() == s.len(),
        forall|x: CandidateV| #[trigger] sort_cands(s).contains(x) <==> s.contains(x),
    decreases s.len(),
{
    if s.len() > 0 {
        let front = s.drop_last();
        lemma_sort_cands_members(front);
        let sorted = sort_cands(front);
        let x = s.last();
        let k = cand_insert_at(sorted, x);
        lemma_cand_insert_at_bounds(sorted, x);
        let out = sorted.insert(k, x);
        assert(sort_cands(s) == out);
        assert forall|y: CandidateV| #[trigger] out.contains(y) <==> s.contains(y) by {
            if out.contains(y) {
                let i = choose|i: int| 0 <= i < out.len() && out[i] == y;
                if i < k {
                    assert(sorted[i] == y);
                    assert(sorted.contains(y));
                } else if i > k {
                    assert(sorted[i - 1] == y);
                    assert(sorted.contains(y));
                } else {
                    assert(s[s.len() - 1] == y);
                }
                if sorted.contains(y) {
                    let j = choose|j: int| 0 <= j < front.len() && front[j] == y;
                    assert(s[j] == y);
                }
            }
            if s.contains(y) {
                let j = choose|j: int| 0 <= j < s.len() && s[j] == y;
                if j < s.len() - 1 {
                    assert(front[j] == y);
                    assert(front.contains(y));
                    assert(sorted.contains(y));
                    let i = choose|i: int| 0 <= i < sorted.len() && sorted[i] == y;
                    if i < k {
                        assert(out[i] == y);
                    } else {
                        assert(out[i + 1] == y);
                    }
                } else {
                    assert(out[k] == y);
                }
            }
        }
    }
}

/// A name is among the implementers exactly when some candidate has it and
/// it is in the code.
proof fn lemma_implementers(cs: Seq<CandidateV>, in_code: Seq<Seq<char>>)
    ensures
        forall|x: Seq<char>| #[trigger] implementers(cs, in_code).contains(x) <==> (in_code.contains(x) && exists|i: int|
            0 <= i < cs.len() && (#[trigger] cs[i]).name == x),
    decreases cs.len(),
{
    if cs.len() > 0 {
        let front = cs.drop_last();
        lemma_implementers(front, in_code);
        let rest = implementers(front, in_code);
        let c = cs.last();
        assert forall|x: Seq<char>| #[trigger] implementers(cs, in_code).contains(x) <==> (in_code.contains(x) && exists|i: int|
            0 <= i < cs.len() && (#[trigger] cs[i]).name == x) by {
            let out = implementers(cs, in_code);
            if out.contains(x) {
                let i = choose|i: int| 0 <= i < out.len() && out[i] == x;
                if i < rest.len() {
                    assert(rest.contains(x));
                    let j = choose|j: int| 0 <= j < front.len() && (#[trigger] front[j]).name == x;
                    assert(cs[j].name == x);
                } else {
                    assert(cs[cs.len() - 1].name == x);
                }
            }
            if in_code.contains(x) && exists|i: int| 0 <= i < cs.len() && (#[trigger] cs[i]).name == x {
                let j = choose|j: int| 0 <= j < cs.len() && (#[trigger] cs[j]).name == x;
                if j < cs.len() - 1 {
                    assert(front[j].name == x);
                    assert(rest.contains(x));
                    let i = choose|i: int| 0 <= i < rest.len() && rest[i] == x;
                    assert(out[i] == x);
                } else {
                    assert(out[out.len() - 1] == x);
                }
            }
        }
    }
}

/// Every candidate counts, whatever its rank: a capability is implemented
/// by exactly those of its candidates (not only the first few) that the
/// code is made of, its status is `implemented` exactly when there is one,
/// and only a missing capability is offered suggestions: the first three of
/// its candidates in rank order (all of them, when fewer).
pub proof fn law_every_candidate_is_checked_against_the_code(
    cap: String,
    comps: Seq<Json>,
    profiles: Seq<(String, Json)>,
    terms: Seq<(String, Vec<String>)>,
    in_code: Seq<Seq<char>>,
)
    ensures
        ({
            let row = conformance_row_of(cap, comps, profiles, terms, in_code);
            let cs = candidates_of(cap, comps, profiles, terms);
            &&& forall|x: Seq<char>| #[trigger] row.implemented_by.contains(x) <==> (in_code.contains(x) && exists|i: int|
                0 <= i < cs.len() && (#[trigger] cs[i]).name == x)
            &&& (row.status == "implemented"@) <==> (exists|i: int| 0 <= i < cs.len() && in_code.contains(#[trigger] cs[i].name))
            &&& (row.status == "missing"@) <==> !(exists|i: int| 0 <= i < cs.len() && in_code.contains(#[trigger] cs[i].name))
            &&& row.candidates.len() > 0 ==> row.status == "missing"@
            &&& row.status == "missing"@ ==> row.candidates.len() == (if cs.len() <= 3 { cs.len() } else { 3 })
                && forall|i: int| 0 <= i < row.candidates.len() ==> (#[trigger] row.candidates[i]) == sort_cands(cs)[i].name
        }),
{
    let cs = candidates_of(cap, comps, profiles, terms);
    let all = sort_cands(cs);
    lemma_sort_cands_members(cs);
    lemma_implementers(all, in_code);
    let by = implementers(all, in_code);
    let row = conformance_row_of(cap, comps, profiles, terms, in_code);
    reveal_strlit("implemented");
    reveal_strlit("missing");
    assert("implemented"@.len() != "missing"@.len());
    assert forall|x: Seq<char>| #[trigger] row.implemented_by.contains(x) <==> (in_code.contains(x) && exists|i: int|
        0 <= i < cs.len() && (#[trigger] cs[i]).name == x) by {
        if exists|i: int| 0 <= i < cs.len() && (#[trigger] cs[i]).name == x {
            let i = choose|i: int| 0 <= i < cs.len() && (#[trigger] cs[i]).name == x;
            assert(cs.contains(cs[i]));
            assert(all.contains(cs[i]));
            let j = choose|j: int| 0 <= j < all.len() && all[j] == cs[i];
            assert(all[j].name == x);
        }
        if exists|j: int| 0 <= j < all.len() && (#[trigger] all[j]).name == x {
            let j = choose|j: int| 0 <= j < all.len() && (#[trigger] all[j]).name == x;
            assert(all.contains(all[j]));
            assert(cs.contains(all[j]));
            let i = choose|i: int| 0 <= i < cs.len() && cs[i] == all[j];
            assert(cs[i].name == x);
        }
    }
    if exists|i: int| 0 <= i < cs.len() && in_code.contains(#[trigger] cs[i].name) {
        let i = choose|i: int| 0 <= i < cs.len() && in_code.contains(#[trigger] cs[i].name);
        assert(row.implemented_by.contains(cs[i].name));
        assert(by.len() > 0);
        assert(row.status == "implemented"@);
        assert(row.candidates.len() == 0);
    } else {
        if by.len() > 0 {
            assert(by.contains(by[0]));
            assert(row.implemented_by.contains(by[0]));
        }
        assert(by.len() == 0);
        assert(row.status == "missing"@);
    }
}

} // verus!
