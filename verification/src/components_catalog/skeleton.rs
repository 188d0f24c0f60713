//! The canonical starter-gear skeleton: the five files a new gear is, so that
//! any caller (a browser, an agent) asks for the same bytes.

use vstd::prelude::*;

use crate::components_catalog::scaffold::ScaffoldFile;
use crate::documents::paths::{
    join, lemma_join_extend, lemma_join_push, lemma_words_nonempty_last, words,
};
use crate::text::{
    chars_of, is_alnum, is_alnum_char, lower, lower_seq, push_all, push_str, split_char,
    split_char_exec, string_of, to_lower, to_upper, trim, trim_chars, trim_end_char,
    trim_end_char_exec, trim_start_char, trim_start_char_exec, upper, vec_views,
};

verus! {

/// What to scaffold, and where.
#[derive(Clone, Debug)]
pub struct SkeletonSpec {
    /// The capability the gear provides, as a person wrote it ("Audit Log").
    pub capability: String,
    /// What it is being built for, named in the manifest and the PRD.
    pub app_title: String,
    /// The PRD's opening sentence. Blank falls back to the capability-gap one.
    pub problem: String,
    /// The provenance note in the manifest and the crate's header comment.
    /// Blank falls back to the gap story.
    pub origin: String,
    /// Directory the gear's own directory goes under.
    pub parent_dir: String,
}

/// The slug of what a person typed: its runs of ASCII letters and digits,
/// lower-cased and joined by hyphens, and `capability` when there are none.
pub open spec fn gear_slug_of(value: Seq<char>) -> Seq<char> {
    let s = lower_seq(join(words(value), '-'));
    if s.len() == 0 {
        "capability"@
    } else {
        s
    }
}

/// `My Gear` / `my gear` / `My-Gear` -> `my-gear`.
pub fn gear_slug(value: &str) -> (out: String)
    ensures
        out@ == gear_slug_of(value@),
{
    let v = chars_of(value);
    let ghost ts = v@;
    let mut out: Vec<char> = Vec::new();
    let mut pending_dash = false;
    let n = v.len();
    for i in 0..n
        invariant
            n == ts.len(),
            v@ == ts,
            out@ == lower_seq(join(words(ts.take(i as int)), '-')),
            pending_dash == (i > 0 && !is_alnum(ts[i - 1])),
            i > 0 && is_alnum(ts[i - 1]) ==> out@.len() > 0,
            out@.len() == 0 <==> words(ts.take(i as int)).len() == 0,
    {
        let ch = v[i];
        let ghost p = ts.take(i as int);
        let ghost q = ts.take(i + 1);
        proof {
            assert(q.drop_last() == p);
            assert(q.last() == ch);
            assert(q.len() >= 2 ==> q[q.len() - 2] == ts[i - 1]);
        }
        if is_alnum_char(ch) {
            let ghost a = join(words(p), '-');
            let ghost b = join(words(q), '-');
            proof {
                assert(out@.len() == a.len());
            }
            if pending_dash && out.len() > 0 {
                out.push('-');
            }
            out.push(to_lower(ch));
            proof {
                if q.len() >= 2 && is_alnum(q[q.len() - 2]) {
                    lemma_words_nonempty_last(p);
                    lemma_join_extend(words(p), '-', ch);
                    assert(lower_seq(b) =~= lower_seq(a).push(lower(ch)));
                } else if words(p).len() == 0 {
                    assert(words(q) == seq![seq![ch]]);
                    assert(lower_seq(b) =~= seq![lower(ch)]);
                } else {
                    lemma_join_push(words(p), '-', seq![ch]);
                    assert(words(q) == words(p).push(seq![ch]));
                    assert(lower_seq(b) =~= lower_seq(a).push('-').push(lower(ch)));
                }
            }
            pending_dash = false;
        } else {
            pending_dash = true;
        }
    }
    proof {
        assert(ts.take(n as int) == ts);
    }
    if out.len() == 0 {
        return "capability".to_owned();
    }
    string_of(&out)
}

/// A word with its first character upper-cased (ASCII).
pub open spec fn cap_word(w: Seq<char>) -> Seq<char> {
    if w.len() == 0 {
        w
    } else {
        seq![upper(w[0])] + w.drop_first()
    }
}

/// The nonempty pieces, each capitalised.
pub open spec fn cap_words(parts: Seq<Seq<char>>) -> Seq<Seq<char>>
    decreases parts.len(),
{
    if parts.len() == 0 {
        seq![]
    } else if parts.last().len() == 0 {
        cap_words(parts.drop_last())
    } else {
        cap_words(parts.drop_last()).push(cap_word(parts.last()))
    }
}

/// The words run together.
pub open spec fn concat(ws: Seq<Seq<char>>) -> Seq<char>
    decreases ws.len(),
{
    if ws.len() == 0 {
        seq![]
    } else {
        concat(ws.drop_last()) + ws.last()
    }
}

/// `audit-log` -> `Audit Log`.
pub open spec fn title_case_of(slug: Seq<char>) -> Seq<char> {
    join(cap_words(split_char(slug, '-')), ' ')
}

/// `audit-log` -> `AuditLogGear`.
pub open spec fn gear_struct_of(slug: Seq<char>) -> Seq<char> {
    concat(cap_words(split_char(slug, '-'))) + "Gear"@
}

fn cap_word_exec(w: &Vec<char>) -> (out: Vec<char>)
    ensures
        out@ == cap_word(w@),
{
    let mut out: Vec<char> = Vec::new();
    if w.len() == 0 {
        return out;
    }
    out.push(to_upper(w[0]));
    let n = w.len();
    for i in 1..n
        invariant
            n == w@.len(),
            n >= 1,
            out@ == seq![upper(w@[0])] + w@.subrange(1, i as int),
    {
        out.push(w[i]);
        proof {
            assert(w@.subrange(1, i + 1) == w@.subrange(1, i as int).push(w@[i as int]));
        }
    }
    proof {
        assert(w@.subrange(1, n as int) == w@.drop_first());
    }
    out
}

/// The capitalised words of a slug, joined by `sep` (or run together).
fn cap_join(slug: &str, sep: Option<char>) -> (out: Vec<char>)
    ensures
        match sep {
            Some(c) => out@ == join(cap_words(split_char(slug@, '-')), c),
            None => out@ == concat(cap_words(split_char(slug@, '-'))),
        },
{
    let parts = split_char_exec(&chars_of(slug), '-');
    let ghost ps = vec_views(parts@);
    let mut out: Vec<char> = Vec::new();
    let mut count: usize = 0;
    let n = parts.len();
    for i in 0..n
        invariant
            n == parts@.len(),
            ps == vec_views(parts@),
            count == cap_words(ps.take(i as int)).len(),
            count <= i,
            match sep {
                Some(c) => out@ == join(cap_words(ps.take(i as int)), c),
                None => out@ == concat(cap_words(ps.take(i as int))),
            },
    {
        let ghost p = ps.take(i as int);
        let ghost q = ps.take(i + 1);
        proof {
            assert(q.drop_last() == p);
            assert(q.last() == parts@[i as int]@);
        }
        if parts[i].len() > 0 {
            let w = cap_word_exec(&parts[i]);
            let ghost before = out@;
            match sep {
                Some(c) => {
                    if count > 0 {
                        out.push(c);
                    }
                },
                None => {},
            }
            push_all(&mut out, &w);
            proof {
                let cw = cap_words(p);
                assert(cap_words(q) == cw.push(w@));
                match sep {
                    Some(c) => {
                        if count > 0 {
                            lemma_join_push(cw, c, w@);
                        } else {
                            assert(cap_words(q) == seq![w@]);
                        }
                    },
                    None => {
                        assert(cw.push(w@).drop_last() == cw);
                    },
                }
            }
            count = count + 1;
        }
    }
    proof {
        assert(ps.take(n as int) == ps);
    }
    out
}

/// Trim a directory to `a/b` form: no leading or trailing slash, and empty
/// falls back to `gears`.
pub open spec fn normalize_dir_of(value: Seq<char>) -> Seq<char> {
    let t = trim(trim_end_char(trim_start_char(trim(value), '/'), '/'));
    if t.len() == 0 {
        "gears"@
    } else {
        t
    }
}

fn normalize_dir(value: &str) -> (out: Vec<char>)
    ensures
        out@ == normalize_dir_of(value@),
{
    let t = trim_chars(&chars_of(value));
    let t = trim_start_char_exec(&t, '/');
    let t = trim_end_char_exec(&t, '/');
    let t = trim_chars(&t);
    if t.len() == 0 {
        chars_of("gears")
    } else {
        t
    }
}

/// The text of `value` trimmed, or `fallback` when that is empty.
fn trimmed_or(value: &str, fallback: Vec<char>) -> (out: Vec<char>)
    ensures
        out@ == (if trim(value@).len() == 0 { fallback@ } else { trim(value@) }),
{
    let t = trim_chars(&chars_of(value));
    if t.len() == 0 {
        fallback
    } else {
        t
    }
}

pub open spec fn origin_of(spec: SkeletonSpec) -> Seq<char> {
    if trim(spec.origin@).len() == 0 {
        "Scaffolded from an App Spec gap."@
    } else {
        trim(spec.origin@)
    }
}

pub open spec fn problem_of(spec: SkeletonSpec) -> Seq<char> {
    if trim(spec.problem@).len() == 0 {
        spec.app_title@ + " needs the `"@ + spec.capability@ + "` capability, and no catalogued component provides it."@
    } else {
        trim(spec.problem@)
    }
}

/// The manifest: one `[gear]` table, a human name, and the three plugin
/// booleans.
pub open spec fn gear_toml_of(spec: SkeletonSpec) -> Seq<char> {
    "[gear]\nname = \""@ + title_case_of(gear_slug_of(spec.capability@)) + "\"\ndescription = \""@
        + spec.capability@ + " capability for "@ + spec.app_title@ + ". "@ + origin_of(spec)
        + "\"\ncategory = \"platform\"\nis_plugin = false\nhas_plugins = false\nhas_extension_point = false\n"@
}

pub open spec fn crate_name_of(spec: SkeletonSpec) -> Seq<char> {
    "cf-gears-"@ + gear_slug_of(spec.capability@)
}

pub open spec fn cargo_toml_of(spec: SkeletonSpec) -> Seq<char> {
    "[package]\nname = \""@ + crate_name_of(spec)
        + "\"\nversion = \"0.1.0\"\nedition = \"2021\"\n\n[dependencies]\ntoolkit = { workspace = true }\nasync-trait = { workspace = true }\nanyhow = { workspace = true }\n"@
}

pub open spec fn lib_rs_of(spec: SkeletonSpec) -> Seq<char> {
    let gear = gear_struct_of(gear_slug_of(spec.capability@));
    "//! "@ + crate_name_of(spec) + " — the `"@ + spec.capability@ + "` capability. "@ + origin_of(spec)
        + "\n//! Fill in the service, GTS types and REST surface.\n\nuse async_trait::async_trait;\nuse toolkit::{Gear, GearCtx};\n\n#[toolkit::gear(\n    name = \""@
        + crate_name_of(spec)
        + "\",\n    deps = [],\n    capabilities = [rest]\n)]\n#[derive(Default)]\npub struct "@ + gear
        + ";\n\n#[async_trait]\nimpl Gear for "@ + gear
        + " {\n    async fn init(&self, _ctx: &GearCtx) -> anyhow::Result<()> {\n        // TO"@
        + "DO: register GTS types, resolve dependencies, wire the "@ + spec.capability@
        + " service.\n        Ok(())\n    }\n}\n"@
}

pub open spec fn prd_of(spec: SkeletonSpec) -> Seq<char> {
    "---\nstatus: draft\nowner: \n---\n\n# PRD — "@ + spec.capability@ + " gear\n\n## Problem\n\n"@
        + problem_of(spec)
        + "\n\n## Goals\n\n- Provide `"@ + spec.capability@
        + "` as a reusable gear other apps can compose.\n\n## Non-Goals\n\n## Users & Use Cases\n\n## Requirements\n\n## Success Metrics\n"@
}

pub open spec fn design_of(spec: SkeletonSpec) -> Seq<char> {
    "---\nstatus: draft\n---\n\n# Design — "@ + spec.capability@
        + " gear\n\n## Overview\n\n## Architecture\n\n```mermaid\ngraph LR\n    Client --> G[\""@
        + spec.capability@
        + "\"]\n    G --> DB[(storage)]\n```\n\n## Data Model\n\n## Interfaces\n\n## Trade-offs\n"@
}

/// The gear's directory: its parent, a slash, and its slug.
pub open spec fn gear_dir_of(spec: SkeletonSpec) -> Seq<char> {
    normalize_dir_of(spec.parent_dir@) + "/"@ + gear_slug_of(spec.capability@)
}

/// The five files, in the order they are written.
pub open spec fn skeleton_of(spec: SkeletonSpec) -> Seq<(Seq<char>, Seq<char>)> {
    let dir = gear_dir_of(spec);
    seq![
        (dir + "/gear.toml"@, gear_toml_of(spec)),
        (dir + "/Cargo.toml"@, cargo_toml_of(spec)),
        (dir + "/src/lib.rs"@, lib_rs_of(spec)),
        (dir + "/docs/PRD.md"@, prd_of(spec)),
        (dir + "/docs/DESIGN.md"@, design_of(spec)),
    ]
}

pub open spec fn file_views(v: Seq<ScaffoldFile>) -> Seq<(Seq<char>, Seq<char>)> {
    v.map_values(|f: ScaffoldFile| f@)
}

fn file_at(dir: &Vec<char>, rel: &str, content: Vec<char>) -> (out: ScaffoldFile)
    ensures
        out@ == (dir@ + rel@, content@),
{
    let mut p: Vec<char> = Vec::new();
    push_all(&mut p, dir);
    push_str(&mut p, rel);
    ScaffoldFile { path: string_of(&p), content: string_of(&content) }
}

/// The five files a starter gear is: manifest, crate, the gear entrypoint,
/// and PRD/DESIGN stubs, under `<parent>/<slug>/`. Returns the slug too.
pub fn generate(spec: &SkeletonSpec) -> (out: (String, Vec<ScaffoldFile>))
    ensures
        out.0@ == gear_slug_of(spec.capability@),
        file_views(out.1@) == skeleton_of(*spec),
{
    let slug = gear_slug(spec.capability.as_str());
    let slug_v = chars_of(slug.as_str());
    let mut dir = normalize_dir(spec.parent_dir.as_str());
    push_str(&mut dir, "/");
    push_all(&mut dir, &slug_v);
    let mut crate_name: Vec<char> = Vec::new();
    push_str(&mut crate_name, "cf-gears-");
    push_all(&mut crate_name, &slug_v);
    let gear = cap_join(slug.as_str(), None);
    let mut gear_v = gear;
    push_str(&mut gear_v, "Gear");
    let title = cap_join(slug.as_str(), Some(' '));
    let origin = trimmed_or(spec.origin.as_str(), chars_of("Scaffolded from an App Spec gap."));
    let mut gap: Vec<char> = Vec::new();
    push_str(&mut gap, spec.app_title.as_str());
    push_str(&mut gap, " needs the `");
    push_str(&mut gap, spec.capability.as_str());
    push_str(&mut gap, "` capability, and no catalogued component provides it.");
    let problem = trimmed_or(spec.problem.as_str(), gap);
    let cap = spec.capability.as_str();
    let app = spec.app_title.as_str();

    let mut gear_toml: Vec<char> = Vec::new();
    push_str(&mut gear_toml, "[gear]\nname = \"");
    push_all(&mut gear_toml, &title);
    push_str(&mut gear_toml, "\"\ndescription = \"");
    push_str(&mut gear_toml, cap);
    push_str(&mut gear_toml, " capability for ");
    push_str(&mut gear_toml, app);
    push_str(&mut gear_toml, ". ");
    push_all(&mut gear_toml, &origin);
    push_str(
        &mut gear_toml,
        "\"\ncategory = \"platform\"\nis_plugin = false\nhas_plugins = false\nhas_extension_point = false\n",
    );

    let mut cargo_toml: Vec<char> = Vec::new();
    push_str(&mut cargo_toml, "[package]\nname = \"");
    push_all(&mut cargo_toml, &crate_name);
    push_str(
        &mut cargo_toml,
        "\"\nversion = \"0.1.0\"\nedition = \"2021\"\n\n[dependencies]\ntoolkit = { workspace = true }\nasync-trait = { workspace = true }\nanyhow = { workspace = true }\n",
    );

    let mut lib: Vec<char> = Vec::new();
    push_str(&mut lib, "//! ");
    push_all(&mut lib, &crate_name);
    push_str(&mut lib, " — the `");
    push_str(&mut lib, cap);
    push_str(&mut lib, "` capability. ");
    push_all(&mut lib, &origin);
    push_str(
        &mut lib,
        "\n//! Fill in the service, GTS types and REST surface.\n\nuse async_trait::async_trait;\nuse toolkit::{Gear, GearCtx};\n\n#[toolkit::gear(\n    name = \"",
    );
    push_all(&mut lib, &crate_name);
    push_str(
        &mut lib,
        "\",\n    deps = [],\n    capabilities = [rest]\n)]\n#[derive(Default)]\npub struct ",
    );
    push_all(&mut lib, &gear_v);
    push_str(&mut lib, ";\n\n#[async_trait]\nimpl Gear for ");
    push_all(&mut lib, &gear_v);
    push_str(
        &mut lib,
        " {\n    async fn init(&self, _ctx: &GearCtx) -> anyhow::Result<()> {\n        // TO",
    );
    push_str(&mut lib, "DO: register GTS types, resolve dependencies, wire the ");
    push_str(&mut lib, cap);
    push_str(&mut lib, " service.\n        Ok(())\n    }\n}\n");

    let mut prd: Vec<char> = Vec::new();
    push_str(&mut prd, "---\nstatus: draft\nowner: \n---\n\n# PRD — ");
    push_str(&mut prd, cap);
    push_str(&mut prd, " gear\n\n## Problem\n\n");
    push_all(&mut prd, &problem);
    push_str(&mut prd, "\n\n## Goals\n\n- Provide `");
    push_str(&mut prd, cap);
    push_str(
        &mut prd,
        "` as a reusable gear other apps can compose.\n\n## Non-Goals\n\n## Users & Use Cases\n\n## Requirements\n\n## Success Metrics\n",
    );

    let mut design: Vec<char> = Vec::new();
    push_str(&mut design, "---\nstatus: draft\n---\n\n# Design — ");
    push_str(&mut design, cap);
    push_str(
        &mut design,
        " gear\n\n## Overview\n\n## Architecture\n\n```mermaid\ngraph LR\n    Client --> G[\"",
    );
    push_str(&mut design, cap);
    push_str(
        &mut design,
        "\"]\n    G --> DB[(storage)]\n```\n\n## Data Model\n\n## Interfaces\n\n## Trade-offs\n",
    );

    let mut files: Vec<ScaffoldFile> = Vec::new();
    files.push(file_at(&dir, "/gear.toml", gear_toml));
    files.push(file_at(&dir, "/Cargo.toml", cargo_toml));
    files.push(file_at(&dir, "/src/lib.rs", lib));
    files.push(file_at(&dir, "/docs/PRD.md", prd));
    files.push(file_at(&dir, "/docs/DESIGN.md", design));
    proof {
        assert(file_views(files@) =~= skeleton_of(*spec));
    }
    (slug, files)
}

/// `audit-log` -> `Audit Log`: the display name of a gear from its slug.
pub fn title_case(slug: &str) -> (out: String)
    ensures
        out@ == title_case_of(slug@),
{
    string_of(&cap_join(slug, Some(' ')))
}

} // verus!
