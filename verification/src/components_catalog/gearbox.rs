//! The Gearbox engine's vocabulary as this gear speaks it: the kinds of gear
//! it scaffolds, the ids a product may have, how a string is written in GDL,
//! where an SDK sits relative to a new gear, and what the engine reported.

use vstd::prelude::*;
use vstd::string::StringSliceAdditionalSpecFns;

pub use crate::components_catalog::new_gear::{GearScaffold, SdkLocator};
use crate::components_catalog::values::{field, field_of, map_put, shown, shown_field, sv, vmap_put, VMap};
use crate::json::{json_array, json_at, json_get, json_str, json_u64, json_view, key_views, member_views, str_at, Json, JsonV};
use crate::text::{
    contains, contains_exec, join_str, join_strings, lemma_seq_lt_irreflexive, lemma_seq_lt_total, lemma_seq_lt_transitive,
    lex_lt, seq_lt, chars_of, ends_with, ends_with_exec, opt_view, push_all, push_str, split_char, split_char_exec,
    str_eq, string_of, strip_prefix, strip_prefix_exec, trim, trim_chars, trim_end_char, trim_end_char_exec, trim_start_char,
    trim_start_char_exec, vec_views,
};

verus! {

/// The source id every generated `product.gdl` names its gears from, and the
/// directory the gear corpus is checked out under in a session workspace.
pub const CORPUS_SOURCE_ID: &'static str = "gears-rust";

/// The three shapes the engine scaffolds.
#[derive(Debug, Clone, Copy, PartialEq, Eq, Structural)]
pub enum GearKind {
    Minimal,
    Service,
    Plugin,
}

pub open spec fn gear_kind_name(k: GearKind) -> Seq<char> {
    match k {
        GearKind::Minimal => "minimal"@,
        GearKind::Service => "service"@,
        GearKind::Plugin => "plugin"@,
    }
}

/// The kind a name selects, read trimmed; a blank one means a service.
pub open spec fn gear_kind_of(s: Seq<char>) -> Option<GearKind> {
    let t = trim(s);
    if t == "minimal"@ {
        Some(GearKind::Minimal)
    } else if t == "service"@ || t.len() == 0 {
        Some(GearKind::Service)
    } else if t == "plugin"@ {
        Some(GearKind::Plugin)
    } else {
        None
    }
}

impl GearKind {
    pub fn parse(s: &str) -> (out: Option<GearKind>)
        ensures
            out == gear_kind_of(s@),
    {
        let tv = trim_chars(&chars_of(s));
        if tv.len() == 0 {
            proof {
                reveal_strlit("minimal");
                assert("minimal"@.len() == 7);
            }
            return Some(GearKind::Service);
        }
        let t = string_of(&tv);
        let ts = t.as_str();
        if str_eq(ts, "minimal") {
            Some(GearKind::Minimal)
        } else if str_eq(ts, "service") {
            Some(GearKind::Service)
        } else if str_eq(ts, "plugin") {
            Some(GearKind::Plugin)
        } else {
            None
        }
    }

    pub fn as_str(self) -> (out: &'static str)
        ensures
            out@ == gear_kind_name(self),
    {
        match self {
            GearKind::Minimal => "minimal",
            GearKind::Service => "service",
            GearKind::Plugin => "plugin",
        }
    }
}

/// The nonempty pieces of a path.
pub open spec fn nonempty_count(ps: Seq<Seq<char>>) -> nat
    decreases ps.len(),
{
    if ps.len() == 0 {
        0
    } else {
        nonempty_count(ps.drop_last()) + if ps.last().len() > 0 { 1nat } else { 0nat }
    }
}

pub open spec fn repeat_up(n: nat) -> Seq<char>
    decreases n,
{
    if n == 0 {
        seq![]
    } else {
        repeat_up((n - 1) as nat) + "../"@
    }
}

/// The SDK path as a new gear's `gear.gdl` must write it: the gear sits at
/// `<checkout>/<parent_dir>/<slug>`, the corpus is the `gears-rust`
/// checkout beside the project's, so the path climbs out of the gear and the
/// checkout and then descends into the corpus.
pub open spec fn sdk_path_from_gear_of(parent_dir: Seq<char>, sdk_path: Seq<char>) -> Seq<char> {
    let depth = nonempty_count(split_char(trim_end_char(trim_start_char(parent_dir, '/'), '/'), '/')) + 2;
    repeat_up(depth) + CORPUS_SOURCE_ID@ + "/"@ + trim_start_char(sdk_path, '/')
}

pub fn sdk_path_from_gear(parent_dir: &str, sdk_path: &str) -> (out: String)
    ensures
        out@ == sdk_path_from_gear_of(parent_dir@, sdk_path@),
{
    let p = trim_end_char_exec(&trim_start_char_exec(&chars_of(parent_dir), '/'), '/');
    let parts = split_char_exec(&p, '/');
    let ghost ps = vec_views(parts@);
    let n = parts.len();
    let mut out: Vec<char> = Vec::new();
    push_str(&mut out, "../");
    push_str(&mut out, "../");
    proof {
        assert(repeat_up(0) =~= Seq::<char>::empty());
        assert(repeat_up(1) == repeat_up(0) + "../"@);
        assert(repeat_up(1) =~= "../"@);
        assert(repeat_up(2) =~= "../"@ + "../"@);
        assert(out@ == repeat_up(2));
        assert(ps.take(0) =~= Seq::<Seq<char>>::empty());
    }
    for i in 0..n
        invariant
            n == parts@.len(),
            ps == vec_views(parts@),
            out@ == repeat_up(nonempty_count(ps.take(i as int)) + 2),
    {
        proof {
            assert(ps.take(i + 1).drop_last() == ps.take(i as int));
            assert(ps.take(i + 1).last() == parts@[i as int]@);
        }
        if parts[i].len() > 0 {
            push_str(&mut out, "../");
        }
    }
    proof {
        assert(ps.take(n as int) == ps);
    }
    push_str(&mut out, CORPUS_SOURCE_ID);
    push_str(&mut out, "/");
    let sdk = trim_start_char_exec(&chars_of(sdk_path), '/');
    push_all(&mut out, &sdk);
    string_of(&out)
}

/// A byte of a kebab-case id: a lower-case ASCII letter, a digit or `-`.
pub open spec fn kebab_byte(b: u8) -> bool {
    (97 <= b <= 122) || (48 <= b <= 57) || b == 45
}

/// A kebab-case id in GDL: lower-case letters, digits and single interior
/// hyphens, starting with a letter.
pub open spec fn is_kebab_id_of(bs: Seq<u8>) -> bool {
    &&& bs.len() > 0
    &&& 97 <= bs[0] <= 122
    &&& bs.last() != 45
    &&& forall|i: int| 0 <= i < bs.len() ==> kebab_byte(#[trigger] bs[i])
    &&& forall|i: int| 0 <= i < bs.len() - 1 ==> !(#[trigger] bs[i] == 45 && bs[i + 1] == 45)
}

pub fn is_kebab_id(s: &str) -> (r: bool)
    ensures
        r == is_kebab_id_of(s.spec_bytes()),
{
    let bs = s.as_bytes();
    let n = bs.len();
    if n == 0 || !(97 <= bs[0] && bs[0] <= 122) || bs[n - 1] == 45 {
        return false;
    }
    for i in 0..n
        invariant
            n == bs@.len(),
            n > 0,
            bs@ == s.spec_bytes(),
            97 <= bs@[0] <= 122,
            bs@.last() != 45,
            forall|j: int| 0 <= j < i ==> kebab_byte(#[trigger] bs@[j]),
            forall|j: int| 0 <= j < i && j < n - 1 ==> !(#[trigger] bs@[j] == 45 && bs@[j + 1] == 45),
    {
        let b = bs[i];
        if !((97 <= b && b <= 122) || (48 <= b && b <= 57) || b == 45) {
            return false;
        }
        if i + 1 < n && b == 45 && bs[i + 1] == 45 {
            return false;
        }
    }
    true
}

/// `char::is_control`: the Unicode `Cc` category.
pub open spec fn is_control(c: char) -> bool {
    ('\u{0}' <= c && c <= '\u{1f}') || ('\u{7f}' <= c && c <= '\u{9f}')
}

/// One character as a GDL string literal carries it.
pub open spec fn gdl_char(c: char) -> Seq<char> {
    if c == '\\' {
        seq!['\\', '\\']
    } else if c == '"' {
        seq!['\\', '"']
    } else if c == '\n' {
        seq!['\\', 'n']
    } else if is_control(c) {
        seq![]
    } else {
        seq![c]
    }
}

pub open spec fn gdl_body(s: Seq<char>) -> Seq<char>
    decreases s.len(),
{
    if s.len() == 0 {
        seq![]
    } else {
        gdl_body(s.drop_last()) + gdl_char(s.last())
    }
}

/// A GDL string literal: quoted, with backslash, quote and newline escaped
/// and other control characters dropped.
pub open spec fn gdl_string_of(s: Seq<char>) -> Seq<char> {
    seq!['"'] + gdl_body(s) + seq!['"']
}

pub fn gdl_string(s: &str) -> (out: String)
    ensures
        out@ == gdl_string_of(s@),
{
    let v = chars_of(s);
    let n = v.len();
    let mut out: Vec<char> = Vec::new();
    out.push('"');
    for i in 0..n
        invariant
            n == v@.len(),
            v@ == s@,
            out@ == seq!['"'] + gdl_body(v@.take(i as int)),
    {
        let c = v[i];
        proof {
            assert(v@.take(i + 1).drop_last() == v@.take(i as int));
            assert(v@.take(i + 1).last() == c);
        }
        let ghost before = out@;
        if c == '\\' {
            out.push('\\');
            out.push('\\');
        } else if c == '"' {
            out.push('\\');
            out.push('"');
        } else if c == '\n' {
            out.push('\\');
            out.push('n');
        } else if ('\u{0}' <= c && c <= '\u{1f}') || ('\u{7f}' <= c && c <= '\u{9f}') {
        } else {
            out.push(c);
        }
        proof {
            assert(out@ =~= before + gdl_char(c));
        }
    }
    out.push('"');
    proof {
        assert(v@.take(n as int) == v@);
    }
    string_of(&out)
}

/// One finding of the engine.
#[derive(Debug, Clone, PartialEq, Eq)]
pub struct EngineDiagnostic {
    pub code: String,
    pub severity: String,
    pub message: String,
    pub help: Option<String>,
    /// Where it points: `product.gdl` or a corpus-relative `gear.gdl`.
    pub file: Option<String>,
    /// One-based.
    pub line: Option<u32>,
}

pub struct EngineDiagnosticV {
    pub code: Seq<char>,
    pub severity: Seq<char>,
    pub message: Seq<char>,
    pub help: Option<Seq<char>>,
    pub file: Option<Seq<char>>,
    pub line: Option<u32>,
}

impl View for EngineDiagnostic {
    type V = EngineDiagnosticV;

    open spec fn view(&self) -> EngineDiagnosticV {
        EngineDiagnosticV {
            code: self.code@,
            severity: self.severity@,
            message: self.message@,
            help: opt_view(self.help),
            file: opt_view(self.file),
            line: self.line,
        }
    }
}

impl EngineDiagnostic {
    pub fn is_error(&self) -> (out: bool)
        ensures
            out == (self.severity@ == "error"@),
    {
        str_eq(self.severity.as_str(), "error")
    }
}

/// A diagnostic as the person reads it: the scratch product file is the
/// `product.gdl` at the root of their repository.
pub open spec fn relabelled(d: EngineDiagnosticV) -> EngineDiagnosticV {
    match d.file {
        Some(f) => if ends_with(f, "product.gdl"@) {
            EngineDiagnosticV { file: Some("product.gdl"@), ..d }
        } else {
            d
        },
        None => d,
    }
}

pub open spec fn diagnostic_views(v: Seq<EngineDiagnostic>) -> Seq<EngineDiagnosticV> {
    v.map_values(|d: EngineDiagnostic| d@)
}

/// The scratch product file is `<id>/product.gdl`; the person knows it as
/// the `product.gdl` at the root of their repository.
pub fn relabel(diagnostics: Vec<EngineDiagnostic>) -> (out: Vec<EngineDiagnostic>)
    ensures
        diagnostic_views(out@) == diagnostic_views(diagnostics@).map_values(|d: EngineDiagnosticV| relabelled(d)),
{
    let mut out: Vec<EngineDiagnostic> = Vec::new();
    let mut rest = diagnostics;
    let ghost all = diagnostic_views(rest@);
    let ghost want = all.map_values(|d: EngineDiagnosticV| relabelled(d));
    let n = rest.len();
    let mut i: usize = 0;
    while i < n
        invariant
            n == all.len(),
            i <= n,
            rest@.len() == n - i,
            forall|k: int| 0 <= k < n - i ==> #[trigger] rest@[k]@ == all[i + k],
            diagnostic_views(out@) == want.take(i as int),
            want == all.map_values(|d: EngineDiagnosticV| relabelled(d)),
        decreases n - i,
    {
        let d = rest.remove(0);
        proof {
            assert(d@ == all[i as int]);
        }
        let points_at_product = match &d.file {
            Some(f) => ends_with_exec(&chars_of(f.as_str()), "product.gdl"),
            None => false,
        };
        let e = if points_at_product {
            EngineDiagnostic {
                code: d.code,
                severity: d.severity,
                message: d.message,
                help: d.help,
                file: Some("product.gdl".to_owned()),
                line: d.line,
            }
        } else {
            d
        };
        proof {
            assert(e@ == want[i as int]);
        }
        let ghost before = diagnostic_views(out@);
        out.push(e);
        proof {
            assert(diagnostic_views(out@) =~= before.push(e@));
            assert(want.take(i + 1) =~= want.take(i as int).push(want[i as int]));
            assert forall|k: int| 0 <= k < n - (i + 1) implies #[trigger] rest@[k]@ == all[i + 1 + k] by {}
        }
        i = i + 1;
    }
    proof {
        assert(want.take(n as int) =~= want);
    }
    out
}

/// One `use_gear(...)` line, with the plugins written under it.
#[derive(Debug, Clone, PartialEq, Eq)]
pub struct GearUse {
    pub id: String,
    pub plugins: Vec<String>,
}

/// The picked gears as `product.gdl` declarations, and what composing them
/// had to say.
#[derive(Debug, Clone, PartialEq, Eq)]
pub struct Composition {
    pub gears: Vec<GearUse>,
    /// Hosts added because a picked plugin needs one: `(host, plugin)`.
    pub added_hosts: Vec<(String, String)>,
    /// Picked names no `gear.gdl` in the corpus declares.
    pub not_described: Vec<String>,
    /// Picked hosts with an extension point nothing picked fills, and the
    /// corpus gears that could: `(host, [plugin, ...])`.
    pub plugin_options: Vec<(String, Vec<String>)>,
}

pub open spec fn plugin_list(ps: Seq<String>) -> Seq<char>
    decreases ps.len(),
{
    if ps.len() == 0 {
        seq![]
    } else if ps.len() == 1 {
        "plugin("@ + gdl_string_of(ps[0]@) + ")"@
    } else {
        plugin_list(ps.drop_last()) + ", "@ + "plugin("@ + gdl_string_of(ps.last()@) + ")"@
    }
}

/// One gear of the product: `use_gear(id, source = ...)`, with its plugins
/// when it has any.
pub open spec fn gear_line(g: GearUse) -> Seq<char> {
    if g.plugins@.len() == 0 {
        "        use_gear("@ + gdl_string_of(g.id@) + ", source = "@ + gdl_string_of(CORPUS_SOURCE_ID@) + "),\n"@
    } else {
        "        use_gear("@ + gdl_string_of(g.id@) + ", source = "@ + gdl_string_of(CORPUS_SOURCE_ID@)
            + ", plugins = ["@ + plugin_list(g.plugins@) + "]),\n"@
    }
}

pub open spec fn gear_lines(gs: Seq<GearUse>) -> Seq<char>
    decreases gs.len(),
{
    if gs.len() == 0 {
        seq![]
    } else {
        gear_lines(gs.drop_last()) + gear_line(gs.last())
    }
}

/// The `product.gdl` for a composition.
pub open spec fn product_gdl_of(
    product_id: Seq<char>,
    name: Seq<char>,
    gears: Seq<GearUse>,
    default_profile: Seq<char>,
) -> Seq<char> {
    "# The product this project ships, as Gearbox composes it.\n#\n# Written by Constructor Studio from the gears picked for the project. The\n# gears come from the `"@
        + CORPUS_SOURCE_ID@
        + "` checkout beside this repository in a Studio\n# workspace. Resolve it with\n#\n#   gearbox resolve --root ../"@
        + CORPUS_SOURCE_ID@
        + " --product product.gdl --profile dev\n#\n# Reference: https://github.com/MikeFalcon77/gearbox/blob/main/docs/gdl.md\n\nproduct(\n    id = "@
        + gdl_string_of(product_id)
        + ",\n    name = "@
        + gdl_string_of(name)
        + ",\n    version = \"0.1.0\",\n    sources = [source(id = "@
        + gdl_string_of(CORPUS_SOURCE_ID@)
        + ", at = path(\"../"@
        + CORPUS_SOURCE_ID@
        + "\"))],\n    profiles = [\n        embedded(id = \"dev\"),\n        self_hosted(id = \"local\", host = "@
        + gdl_string_of(product_id)
        + ", worker_discovery = \"directory\",\n                    target_dir = \"target\"),\n        kubernetes(id = \"prod\", discovery = \"static\", namespace = "@
        + gdl_string_of(product_id)
        + "),\n    ],\n    default_profile = "@
        + gdl_string_of(default_profile)
        + ",\n    gears = [\n"@
        + gear_lines(gears)
        + "    ],\n)\n"@
}

fn gear_line_exec(g: &GearUse) -> (out: Vec<char>)
    ensures
        out@ == gear_line(*g),
{
    let mut out: Vec<char> = Vec::new();
    push_str(&mut out, "        use_gear(");
    let id = gdl_string(g.id.as_str());
    push_str(&mut out, id.as_str());
    push_str(&mut out, ", source = ");
    let src = gdl_string(CORPUS_SOURCE_ID);
    push_str(&mut out, src.as_str());
    if g.plugins.len() == 0 {
        push_str(&mut out, "),\n");
        return out;
    }
    push_str(&mut out, ", plugins = [");
    let ghost head = out@;
    let n = g.plugins.len();
    for i in 0..n
        invariant
            n == g.plugins@.len(),
            out@ == head + plugin_list(g.plugins@.take(i as int)),
    {
        proof {
            assert(g.plugins@.take(i + 1).drop_last() == g.plugins@.take(i as int));
            assert(g.plugins@.take(i + 1).last() == g.plugins@[i as int]);
        }
        if i > 0 {
            push_str(&mut out, ", ");
        }
        push_str(&mut out, "plugin(");
        let p = gdl_string(g.plugins[i].as_str());
        push_str(&mut out, p.as_str());
        push_str(&mut out, ")");
        proof {
            if i == 0 {
                assert(g.plugins@.take(1) =~= seq![g.plugins@[0]]);
            }
        }
    }
    proof {
        assert(g.plugins@.take(n as int) == g.plugins@);
    }
    push_str(&mut out, "]),\n");
    out
}

/// The `product.gdl` for a composition: every profile declared, the gears
/// named from the corpus source, each plugin nested under its host.
/// `default_profile` must be one of the declared profiles.
pub fn render_product_gdl(product_id: &str, name: &str, composition: &Composition, default_profile: &str) -> (out: String)
    ensures
        out@ == product_gdl_of(product_id@, name@, composition.gears@, default_profile@),
{
    let mut lines: Vec<char> = Vec::new();
    let gears = &composition.gears;
    let n = gears.len();
    for i in 0..n
        invariant
            n == gears@.len(),
            lines@ == gear_lines(gears@.take(i as int)),
    {
        proof {
            assert(gears@.take(i + 1).drop_last() == gears@.take(i as int));
            assert(gears@.take(i + 1).last() == gears@[i as int]);
        }
        let l = gear_line_exec(&gears[i]);
        push_all(&mut lines, &l);
    }
    proof {
        assert(gears@.take(n as int) == gears@);
    }
    let id = gdl_string(product_id);
    let name_s = gdl_string(name);
    let src_s = gdl_string(CORPUS_SOURCE_ID);
    let profile_s = gdl_string(default_profile);
    let mut out: Vec<char> = Vec::new();
    push_str(&mut out, "# The product this project ships, as Gearbox composes it.\n#\n# Written by Constructor Studio from the gears picked for the project. The\n# gears come from the `");
    push_str(&mut out, CORPUS_SOURCE_ID);
    push_str(&mut out, "` checkout beside this repository in a Studio\n# workspace. Resolve it with\n#\n#   gearbox resolve --root ../");
    push_str(&mut out, CORPUS_SOURCE_ID);
    push_str(&mut out, " --product product.gdl --profile dev\n#\n# Reference: https://github.com/MikeFalcon77/gearbox/blob/main/docs/gdl.md\n\nproduct(\n    id = ");
    push_str(&mut out, id.as_str());
    push_str(&mut out, ",\n    name = ");
    push_str(&mut out, name_s.as_str());
    push_str(&mut out, ",\n    version = \"0.1.0\",\n    sources = [source(id = ");
    push_str(&mut out, src_s.as_str());
    push_str(&mut out, ", at = path(\"../");
    push_str(&mut out, CORPUS_SOURCE_ID);
    push_str(&mut out, "\"))],\n    profiles = [\n        embedded(id = \"dev\"),\n        self_hosted(id = \"local\", host = ");
    push_str(&mut out, id.as_str());
    push_str(&mut out, ", worker_discovery = \"directory\",\n                    target_dir = \"target\"),\n        kubernetes(id = \"prod\", discovery = \"static\", namespace = ");
    push_str(&mut out, id.as_str());
    push_str(&mut out, "),\n    ],\n    default_profile = ");
    push_str(&mut out, profile_s.as_str());
    push_str(&mut out, ",\n    gears = [\n");
    push_all(&mut out, &lines);
    push_str(&mut out, "    ],\n)\n");
    string_of(&out)
}

// ── The engine's catalogue, as much of it as composing needs ──────────────

/// A crate: its name, and where its library and directory are.
#[derive(Debug, Clone)]
pub struct EnginePackage {
    pub crate_name: String,
    pub lib_ident: Option<String>,
    /// Relative to the corpus root.
    pub path: Option<String>,
}

/// An extension point, named by its SDK crate.
#[derive(Debug, Clone)]
pub struct EnginePoint {
    pub sdk: EnginePackage,
}

/// The extension point a plugin fills.
#[derive(Debug, Clone)]
pub struct EngineFills {
    pub point: EnginePoint,
    /// Lower wins, as the runtime's plugin selector reads it.
    pub default_priority: Option<i64>,
}

/// An endpoint; its `config_key` is written by generation, not by a person.
#[derive(Debug, Clone)]
pub struct EngineEndpoint {
    pub config_key: Option<String>,
}

/// One configuration field a gear declares.
#[derive(Debug)]
pub struct EngineConfigField {
    pub name: String,
    pub required: bool,
    pub default: Option<Json>,
}

#[derive(Debug)]
pub struct EngineConfigSchema {
    pub fields: Vec<EngineConfigField>,
}

/// A gear as the engine describes it.
#[derive(Debug)]
pub struct EngineGear {
    pub id: String,
    pub package: EnginePackage,
    /// Set on a plugin: the extension point it fills.
    pub fills: Option<EngineFills>,
    /// Set on a host: the extension points plugins fill.
    pub extension_points: Vec<EnginePoint>,
    /// `rest`, `rest_host`, `grpc_hub`, ...
    pub runtime_caps: Vec<String>,
    /// Gears that must share a binary with this one, by engine id.
    pub colocated_deps: Vec<String>,
    pub serves: Vec<EngineEndpoint>,
    pub config_schema: Option<EngineConfigSchema>,
}

/// The engine's catalogue: every gear the corpus describes, by key, in
/// ascending key order, each key once.
#[derive(Debug)]
pub struct EngineCatalogue {
    pub gears: Vec<(String, EngineGear)>,
}

pub type Gears = Seq<(String, EngineGear)>;

/// The gear of the last entry of `gs` under `k`.
pub open spec fn last_under(gs: Gears, k: Seq<char>) -> Option<EngineGear>
    decreases gs.len(),
{
    if gs.len() == 0 {
        None
    } else if gs.last().0@ == k {
        Some(gs.last().1)
    } else {
        last_under(gs.drop_last(), k)
    }
}

/// Some entry of `gs` is under `k`.
pub open spec fn keyed(gs: Gears, k: Seq<char>) -> bool {
    exists|i: int| 0 <= i < gs.len() && (#[trigger] gs[i]).0@ == k
}

/// Keys strictly ascending, as a map keeps them.
pub open spec fn keys_ascending(gs: Gears) -> bool {
    forall|i: int, j: int| 0 <= i < j < gs.len() ==> seq_lt(gs[i].0@, gs[j].0@)
}

impl EngineCatalogue {
    pub open spec fn wf(&self) -> bool {
        keys_ascending(self.gears@)
    }

    /// The catalogue of `entries`, keyed as a map keys them: ascending, and
    /// a later entry under a key already taken replacing the earlier one.
    pub fn from_entries(entries: Vec<(String, EngineGear)>) -> (out: EngineCatalogue)
        ensures
            out.wf(),
            forall|k: Seq<char>| #[trigger] keyed(out.gears@, k) <==> keyed(entries@, k),
            forall|i: int| 0 <= i < out.gears@.len() ==> last_under(entries@, (#[trigger] out.gears@[i]).0@) == Some(
                out.gears@[i].1,
            ),
    {
        let mut gears: Vec<(String, EngineGear)> = Vec::new();
        let mut rest = entries;
        let ghost all = rest@;
        let mut taken: usize = 0;
        let total = rest.len();
        while rest.len() > 0
            invariant
                total == all.len(),
                keys_ascending(gears@),
                taken + rest@.len() == all.len(),
                rest@ == all.skip(taken as int),
                forall|k: Seq<char>| #[trigger] keyed(gears@, k) <==> keyed(all.take(taken as int), k),
                forall|i: int| 0 <= i < gears@.len() ==> last_under(all.take(taken as int), (#[trigger] gears@[i]).0@)
                    == Some(gears@[i].1),
            decreases rest@.len(),
        {
            let e = rest.remove(0);
            proof {
                assert(e == all[taken as int]);
                assert(rest@ == all.skip(taken + 1));
            }
            let ghost before = gears@;
            let key = chars_of(e.0.as_str());
            let n = gears.len();
            let mut k: usize = 0;
            while k < n
                invariant
                    n == gears@.len(),
                    gears@ == before,
                    k <= n,
                    key@ == e.0@,
                    forall|j: int| 0 <= j < k ==> seq_lt(#[trigger] before[j].0@, e.0@),
                ensures
                    k < n ==> !seq_lt(before[k as int].0@, e.0@),
                    forall|j: int| 0 <= j < k ==> seq_lt(#[trigger] before[j].0@, e.0@),
                    k <= n,
                decreases n - k,
            {
                if !lex_lt(&chars_of(gears[k].0.as_str()), &key) {
                    break;
                }
                k = k + 1;
            }
            if k < n && str_eq(gears[k].0.as_str(), e.0.as_str()) {
                gears.set(k, e);
                proof {
                    let t1 = all.take(taken + 1);
                    assert(t1.drop_last() == all.take(taken as int));
                    assert(t1.last() == e);
                    assert forall|i: int| 0 <= i < gears@.len() implies last_under(t1, (#[trigger] gears@[i]).0@)
                        == Some(gears@[i].1) by {
                        if i != k {
                            assert(gears@[i] == before[i]);
                            if i < k {
                                assert(seq_lt(before[i].0@, before[k as int].0@));
                            } else {
                                assert(seq_lt(before[k as int].0@, before[i].0@));
                            }
                            lemma_seq_lt_irreflexive(before[i].0@);
                        }
                    }
                    assert forall|i: int, j: int| 0 <= i < j < gears@.len() implies seq_lt(gears@[i].0@, gears@[j].0@) by {
                        assert(gears@[i].0@ == before[i].0@);
                        assert(gears@[j].0@ == before[j].0@);
                    }
                    let t1 = all.take(taken + 1);
                    assert forall|q: Seq<char>| #[trigger] keyed(gears@, q) <==> keyed(t1, q) by {
                        if keyed(gears@, q) {
                            let i = choose|i: int| 0 <= i < gears@.len() && (#[trigger] gears@[i]).0@ == q;
                            if i == k {
                                assert(t1[taken as int] == e);
                            } else {
                                assert(before[i].0@ == q);
                                assert(keyed(before, q));
                                let j = choose|j: int| 0 <= j < taken && (#[trigger] all.take(taken as int)[j]).0@ == q;
                                assert(t1[j] == all.take(taken as int)[j]);
                            }
                        }
                        if keyed(t1, q) {
                            let j = choose|j: int| 0 <= j < t1.len() && (#[trigger] t1[j]).0@ == q;
                            if j < taken {
                                assert(all.take(taken as int)[j] == t1[j]);
                                assert(keyed(all.take(taken as int), q));
                                assert(keyed(before, q));
                                let i = choose|i: int| 0 <= i < before.len() && (#[trigger] before[i]).0@ == q;
                                assert(gears@[i].0@ == q);
                            } else {
                                assert(t1[j] == e);
                                assert(gears@[k as int].0@ == q);
                            }
                        }
                    }
                }
            } else {
                proof {
                    if k < n {
                        lemma_seq_lt_total(before[k as int].0@, e.0@);
                        assert(seq_lt(e.0@, before[k as int].0@));
                        assert forall|j: int| k <= j < n implies seq_lt(e.0@, #[trigger] before[j].0@) by {
                            if j > k {
                                lemma_seq_lt_transitive(e.0@, before[k as int].0@, before[j].0@);
                            }
                        }
                    }
                }
                gears.insert(k, e);
                proof {
                    let nv = gears@;
                    let t1v = all.take(taken + 1);
                    assert(t1v.drop_last() == all.take(taken as int));
                    assert(t1v.last() == e);
                    lemma_seq_lt_irreflexive(e.0@);
                    assert forall|i: int| 0 <= i < nv.len() implies last_under(t1v, (#[trigger] nv[i]).0@) == Some(nv[i].1) by {
                        if i < k {
                            assert(nv[i] == before[i]);
                            assert(seq_lt(before[i].0@, e.0@));
                        } else if i > k {
                            assert(nv[i] == before[i - 1]);
                            assert(seq_lt(e.0@, before[i - 1].0@));
                        }
                    }
                    assert(nv == before.insert(k as int, e));
                    assert forall|i: int, j: int| 0 <= i < j < nv.len() implies seq_lt(nv[i].0@, nv[j].0@) by {
                        if i < k && j < k {
                        } else if i < k && j == k {
                        } else if i < k && j > k {
                            assert(nv[j] == before[j - 1]);
                        } else if i == k {
                            assert(nv[j] == before[j - 1]);
                        } else {
                            assert(nv[i] == before[i - 1]);
                            assert(nv[j] == before[j - 1]);
                        }
                    }
                    let t1 = all.take(taken + 1);
                    assert forall|q: Seq<char>| #[trigger] keyed(nv, q) <==> keyed(t1, q) by {
                        if keyed(nv, q) {
                            let i = choose|i: int| 0 <= i < nv.len() && (#[trigger] nv[i]).0@ == q;
                            if i == k {
                                assert(t1[taken as int] == e);
                            } else {
                                if i < k {
                                    assert(before[i].0@ == q);
                                } else {
                                    assert(before[i - 1].0@ == q);
                                }
                                assert(keyed(before, q));
                                let j = choose|j: int| 0 <= j < taken && (#[trigger] all.take(taken as int)[j]).0@ == q;
                                assert(t1[j] == all.take(taken as int)[j]);
                            }
                        }
                        if keyed(t1, q) {
                            let j = choose|j: int| 0 <= j < t1.len() && (#[trigger] t1[j]).0@ == q;
                            if j < taken {
                                assert(all.take(taken as int)[j] == t1[j]);
                                assert(keyed(all.take(taken as int), q));
                                assert(keyed(before, q));
                                let i = choose|i: int| 0 <= i < before.len() && (#[trigger] before[i]).0@ == q;
                                if i < k {
                                    assert(nv[i].0@ == q);
                                } else {
                                    assert(nv[i + 1].0@ == q);
                                }
                            } else {
                                assert(t1[j] == e);
                                assert(nv[k as int].0@ == q);
                            }
                        }
                    }
                }
            }
            taken = taken + 1;
        }
        proof {
            assert(taken == all.len());
            assert(all.take(taken as int) == all);
        }
        EngineCatalogue { gears }
    }
}

/// The first gear at or after `i` whose key is `key`.
pub open spec fn index_of_key(gs: Gears, key: Seq<char>, i: int) -> Option<int>
    decreases gs.len() - i,
{
    if i < 0 || i >= gs.len() {
        None
    } else if gs[i].0@ == key {
        Some(i)
    } else {
        index_of_key(gs, key, i + 1)
    }
}

/// The first gear at or after `i` whose crate is `name`.
pub open spec fn index_of_crate(gs: Gears, name: Seq<char>, i: int) -> Option<int>
    decreases gs.len() - i,
{
    if i < 0 || i >= gs.len() {
        None
    } else if gs[i].1.package.crate_name@ == name {
        Some(i)
    } else {
        index_of_crate(gs, name, i + 1)
    }
}

/// A gear by its engine key or, failing that, its crate name.
pub open spec fn find_gear(gs: Gears, name: Seq<char>) -> Option<int> {
    match index_of_key(gs, name, 0) {
        Some(i) => Some(i),
        None => index_of_crate(gs, name, 0),
    }
}

/// Does `host` offer an extension point named by the SDK crate `sdk`?
pub open spec fn offers_point(host: EngineGear, sdk: Seq<char>) -> bool {
    exists|k: int| 0 <= k < host.extension_points@.len() && (#[trigger] host.extension_points@[k]).sdk.crate_name@ == sdk
}

/// Does `plugin` fill one of `host`'s extension points? A gear is never
/// its own plugin.
pub open spec fn fills_host(plugin: EngineGear, host: EngineGear) -> bool {
    &&& plugin.id@ != host.id@
    &&& plugin.fills matches Some(f) && offers_point(host, f.point.sdk.crate_name@)
}

/// The first gear at or after `i` that hosts what `plugin` fills.
pub open spec fn host_from(gs: Gears, plugin: EngineGear, i: int) -> Option<int>
    decreases gs.len() - i,
{
    if i < 0 || i >= gs.len() {
        None
    } else if fills_host(plugin, gs[i].1) {
        Some(i)
    } else {
        host_from(gs, plugin, i + 1)
    }
}

/// The gear whose extension point `plugin` fills, the first in key order.
pub open spec fn host_of(gs: Gears, plugin: EngineGear) -> Option<int> {
    host_from(gs, plugin, 0)
}

/// The gears from `i` on that fill one of `host`'s extension points, in
/// key order.
pub open spec fn implementers_from(gs: Gears, host: EngineGear, i: int) -> Seq<int>
    decreases gs.len() - i,
{
    if i < 0 || i >= gs.len() {
        seq![]
    } else if fills_host(gs[i].1, host) {
        seq![i] + implementers_from(gs, host, i + 1)
    } else {
        implementers_from(gs, host, i + 1)
    }
}

pub open spec fn implementers(gs: Gears, host: EngineGear) -> Seq<int> {
    implementers_from(gs, host, 0)
}

/// The config keys endpoints take from generation, in order.
pub open spec fn derived_keys(es: Seq<EngineEndpoint>) -> Seq<Seq<char>>
    decreases es.len(),
{
    if es.len() == 0 {
        seq![]
    } else {
        let rest = derived_keys(es.drop_last());
        match es.last().config_key {
            Some(k) => rest.push(k@),
            None => rest,
        }
    }
}

/// A field a person would have to write: required, with no default (or a
/// null one), and not an address generation writes.
pub open spec fn field_unset(g: EngineGear, f: EngineConfigField) -> bool {
    &&& f.required
    &&& match f.default {
        None => true,
        Some(j) => j is Null,
    }
    &&& !derived_keys(g.serves@).contains(f.name@)
}

pub open spec fn unset_fields(g: EngineGear, fs: Seq<EngineConfigField>) -> Seq<Seq<char>>
    decreases fs.len(),
{
    if fs.len() == 0 {
        seq![]
    } else {
        let rest = unset_fields(g, fs.drop_last());
        if field_unset(g, fs.last()) {
            rest.push(fs.last().name@)
        } else {
            rest
        }
    }
}

/// The configuration fields of `g` nobody has supplied, in schema order.
pub open spec fn unset_config(g: EngineGear) -> Seq<Seq<char>> {
    match g.config_schema {
        None => seq![],
        Some(s) => unset_fields(g, s.fields@),
    }
}

fn index_of_key_exec(gs: &Vec<(String, EngineGear)>, key: &str) -> (r: Option<usize>)
    ensures
        match r {
            Some(i) => index_of_key(gs@, key@, 0) == Some(i as int) && i < gs@.len(),
            None => index_of_key(gs@, key@, 0) is None,
        },
{
    let n = gs.len();
    let mut i: usize = 0;
    while i < n
        invariant
            n == gs@.len(),
            i <= n,
            index_of_key(gs@, key@, 0) == index_of_key(gs@, key@, i as int),
        decreases n - i,
    {
        if str_eq(gs[i].0.as_str(), key) {
            return Some(i);
        }
        i = i + 1;
    }
    None
}

fn index_of_crate_exec(gs: &Vec<(String, EngineGear)>, name: &str) -> (r: Option<usize>)
    ensures
        match r {
            Some(i) => index_of_crate(gs@, name@, 0) == Some(i as int) && i < gs@.len(),
            None => index_of_crate(gs@, name@, 0) is None,
        },
{
    let n = gs.len();
    let mut i: usize = 0;
    while i < n
        invariant
            n == gs@.len(),
            i <= n,
            index_of_crate(gs@, name@, 0) == index_of_crate(gs@, name@, i as int),
        decreases n - i,
    {
        if str_eq(gs[i].1.package.crate_name.as_str(), name) {
            return Some(i);
        }
        i = i + 1;
    }
    None
}

fn offers_point_exec(host: &EngineGear, sdk: &str) -> (r: bool)
    ensures
        r == offers_point(*host, sdk@),
{
    let n = host.extension_points.len();
    for k in 0..n
        invariant
            n == host.extension_points@.len(),
            forall|j: int| 0 <= j < k ==> (#[trigger] host.extension_points@[j]).sdk.crate_name@ != sdk@,
    {
        if str_eq(host.extension_points[k].sdk.crate_name.as_str(), sdk) {
            return true;
        }
    }
    false
}

fn fills_host_exec(plugin: &EngineGear, host: &EngineGear) -> (r: bool)
    ensures
        r == fills_host(*plugin, *host),
{
    if str_eq(plugin.id.as_str(), host.id.as_str()) {
        return false;
    }
    match &plugin.fills {
        Some(f) => offers_point_exec(host, f.point.sdk.crate_name.as_str()),
        None => false,
    }
}

fn host_of_exec(gs: &Vec<(String, EngineGear)>, plugin: &EngineGear) -> (r: Option<usize>)
    ensures
        match r {
            Some(i) => host_of(gs@, *plugin) == Some(i as int) && i < gs@.len(),
            None => host_of(gs@, *plugin) is None,
        },
{
    let n = gs.len();
    let mut i: usize = 0;
    while i < n
        invariant
            n == gs@.len(),
            i <= n,
            host_of(gs@, *plugin) == host_from(gs@, *plugin, i as int),
        decreases n - i,
    {
        if fills_host_exec(plugin, &gs[i].1) {
            return Some(i);
        }
        i = i + 1;
    }
    None
}

pub open spec fn usize_ints(v: Seq<usize>) -> Seq<int> {
    v.map_values(|x: usize| x as int)
}

fn implementers_exec(gs: &Vec<(String, EngineGear)>, host: &EngineGear) -> (out: Vec<usize>)
    ensures
        usize_ints(out@) == implementers(gs@, *host),
        forall|k: int| 0 <= k < out@.len() ==> out@[k] < gs@.len(),
{
    let n = gs.len();
    let mut out: Vec<usize> = Vec::new();
    let mut i = n;
    while i > 0
        invariant
            n == gs@.len(),
            i <= n,
            usize_ints(out@) == implementers_from(gs@, *host, i as int),
            forall|k: int| 0 <= k < out@.len() ==> i <= #[trigger] out@[k] < n,
        decreases i,
    {
        i = i - 1;
        if fills_host_exec(&gs[i].1, host) {
            let ghost before = out@;
            out.insert(0, i);
            proof {
                assert(usize_ints(out@) =~= seq![i as int] + usize_ints(before));
            }
        }
    }
    out
}

fn unset_config_exec(g: &EngineGear) -> (out: Vec<String>)
    ensures
        out@.map_values(|s: String| s@) == unset_config(*g),
{
    let mut derived: Vec<String> = Vec::new();
    let ns = g.serves.len();
    for i in 0..ns
        invariant
            ns == g.serves@.len(),
            derived@.map_values(|s: String| s@) == derived_keys(g.serves@.take(i as int)),
    {
        proof {
            assert(g.serves@.take(i + 1).drop_last() == g.serves@.take(i as int));
            assert(g.serves@.take(i + 1).last() == g.serves@[i as int]);
        }
        match &g.serves[i].config_key {
            Some(k) => {
                let ghost before = derived@.map_values(|s: String| s@);
                derived.push(k.clone());
                proof {
                    assert(derived@.map_values(|s: String| s@) =~= before.push(k@));
                }
            },
            None => {},
        }
    }
    proof {
        assert(g.serves@.take(ns as int) == g.serves@);
    }
    let mut out: Vec<String> = Vec::new();
    match &g.config_schema {
        None => {},
        Some(s) => {
            let nf = s.fields.len();
            for i in 0..nf
                invariant
                    nf == s.fields@.len(),
                    g.config_schema == Some(*s),
                    derived@.map_values(|s: String| s@) == derived_keys(g.serves@),
                    out@.map_values(|s: String| s@) == unset_fields(*g, s.fields@.take(i as int)),
            {
                let f = &s.fields[i];
                proof {
                    assert(s.fields@.take(i + 1).drop_last() == s.fields@.take(i as int));
                    assert(s.fields@.take(i + 1).last() == *f);
                }
                let no_default = match &f.default {
                    None => true,
                    Some(j) => match j {
                        Json::Null => true,
                        _ => false,
                    },
                };
                let mut is_derived = false;
                let nd = derived.len();
                for k in 0..nd
                    invariant
                        nd == derived@.len(),
                        is_derived == exists|j: int| 0 <= j < k && (#[trigger] derived@[j])@ == f.name@,
                {
                    if str_eq(derived[k].as_str(), f.name.as_str()) {
                        is_derived = true;
                    }
                }
                proof {
                    let dv = derived@.map_values(|s: String| s@);
                    if is_derived {
                        let j = choose|j: int| 0 <= j < nd && (#[trigger] derived@[j])@ == f.name@;
                        assert(dv[j] == f.name@);
                    } else {
                        assert forall|j: int| 0 <= j < dv.len() implies dv[j] != f.name@ by {
                            assert(dv[j] == derived@[j]@);
                        }
                    }
                }
                if f.required && no_default && !is_derived {
                    let ghost before = out@.map_values(|s: String| s@);
                    out.push(f.name.clone());
                    proof {
                        assert(out@.map_values(|s: String| s@) =~= before.push(f.name@));
                    }
                }
            }
            proof {
                assert(s.fields@.take(nf as int) == s.fields@);
            }
        },
    }
    out
}

// ── Completion: from picks to a set the engine can resolve ────────────────

/// Why a gear cannot be part of a product built from this corpus as it is.
#[derive(Debug, Clone, PartialEq, Eq)]
pub enum Dead {
    /// Required configuration with no default; nobody has supplied it.
    NeedsConfig(Vec<String>),
    /// A host no gear in the corpus can plug into.
    NoPlugin,
    /// A plugin for an extension point no gear in the corpus hosts.
    NoHost,
    /// Must share a binary with a gear that is itself dead.
    Dep(String),
}

/// `Dead`, with its strings as character sequences.
pub enum DeadWhy {
    NeedsConfig(Seq<Seq<char>>),
    NoPlugin,
    NoHost,
    Dep(Seq<char>),
}

pub open spec fn dead_view(d: Dead) -> DeadWhy {
    match d {
        Dead::NeedsConfig(fs) => DeadWhy::NeedsConfig(fs@.map_values(|s: String| s@)),
        Dead::NoPlugin => DeadWhy::NoPlugin,
        Dead::NoHost => DeadWhy::NoHost,
        Dead::Dep(s) => DeadWhy::Dep(s@),
    }
}

/// The dead gears found so far, by id, in the order they were found.
pub type DeadMap = Seq<(Seq<char>, DeadWhy)>;

/// Why `id` is dead, as the map holds it: the entry written last.
pub open spec fn dead_get(d: DeadMap, id: Seq<char>) -> Option<DeadWhy>
    decreases d.len(),
{
    if d.len() == 0 {
        None
    } else if d.last().0 == id {
        Some(d.last().1)
    } else {
        dead_get(d.drop_last(), id)
    }
}

/// What its own facts say of the first `n` gears: required configuration
/// nobody has given, or a plugin whose extension point no gear hosts.
pub open spec fn initial_dead(gs: Gears, n: int) -> DeadMap
    decreases n,
{
    if n <= 0 || n > gs.len() {
        seq![]
    } else {
        let d = initial_dead(gs, n - 1);
        let g = gs[n - 1].1;
        let unset = unset_config(g);
        if unset.len() > 0 {
            d.push((g.id@, DeadWhy::NeedsConfig(unset)))
        } else if g.fills is Some && host_of(gs, g) is None {
            d.push((g.id@, DeadWhy::NoHost))
        } else {
            d
        }
    }
}

/// The first of `deps` that is dead.
pub open spec fn first_dead(d: DeadMap, deps: Seq<String>, i: int) -> Option<Seq<char>>
    decreases deps.len() - i,
{
    if i < 0 || i >= deps.len() {
        None
    } else if dead_get(d, deps[i]@) is Some {
        Some(deps[i]@)
    } else {
        first_dead(d, deps, i + 1)
    }
}

/// Every gear that fills one of `host`'s points is dead.
pub open spec fn all_plugins_dead(gs: Gears, d: DeadMap, host: EngineGear) -> bool {
    forall|k: int| 0 <= k < implementers(gs, host).len() ==> dead_get(d, gs[#[trigger] implementers(gs, host)[k]].1.id@) is Some
}

/// One gear of a round: dead when something it must share a binary with
/// is, or its host is, or — for a host — every plugin it could take is.
pub open spec fn dead_step(gs: Gears, d: DeadMap, g: EngineGear) -> (DeadMap, bool) {
    if dead_get(d, g.id@) is Some {
        (d, false)
    } else {
        match first_dead(d, g.colocated_deps@, 0) {
            Some(dep) => (d.push((g.id@, DeadWhy::Dep(dep))), true),
            None => {
                let host_dead = match host_of(gs, g) {
                    Some(h) => dead_get(d, gs[h].1.id@) is Some,
                    None => false,
                };
                if host_dead {
                    (d.push((g.id@, DeadWhy::Dep(gs[host_of(gs, g)->0].1.id@))), true)
                } else if g.extension_points@.len() > 0 && all_plugins_dead(gs, d, g) {
                    (d.push((g.id@, DeadWhy::NoPlugin)), true)
                } else {
                    (d, false)
                }
            },
        }
    }
}

/// A round over the first `n` gears, and whether it found anything new.
pub open spec fn dead_round(gs: Gears, d: DeadMap, n: int) -> (DeadMap, bool)
    decreases n,
{
    if n <= 0 || n > gs.len() {
        (d, false)
    } else {
        let r = dead_round(gs, d, n - 1);
        let s = dead_step(gs, r.0, gs[n - 1].1);
        (s.0, r.1 || s.1)
    }
}

/// Rounds until one finds nothing new, at most `fuel` of them.
pub open spec fn dead_rounds(gs: Gears, d: DeadMap, fuel: nat) -> DeadMap
    decreases fuel,
{
    if fuel == 0 {
        d
    } else {
        let r = dead_round(gs, d, gs.len() as int);
        if !r.1 {
            r.0
        } else {
            dead_rounds(gs, r.0, (fuel - 1) as nat)
        }
    }
}

/// Every gear that cannot run in a product from this corpus, and why: a
/// gear is dead when its own facts say so, or when something it must share
/// a binary with is, or — for a host — when every plugin it could take is,
/// computed round by round until a round finds nothing new.
pub open spec fn dead_map(gs: Gears) -> DeadMap {
    dead_rounds(gs, initial_dead(gs, gs.len() as int), (gs.len() + 1) as nat)
}

pub open spec fn dead_views(v: Seq<(String, Dead)>) -> DeadMap {
    v.map_values(|p: (String, Dead)| (p.0@, dead_view(p.1)))
}

fn dead_get_exec(d: &Vec<(String, Dead)>, id: &str) -> (r: Option<usize>)
    ensures
        match r {
            Some(k) => k < d@.len() && dead_get(dead_views(d@), id@) == Some(dead_view(d@[k as int].1)),
            None => dead_get(dead_views(d@), id@) is None,
        },
{
    let ghost dv = dead_views(d@);
    let mut i = d.len();
    proof {
        assert(dv.take(i as int) == dv);
    }
    while i > 0
        invariant
            i <= d@.len(),
            dv == dead_views(d@),
            dead_get(dv, id@) == dead_get(dv.take(i as int), id@),
        decreases i,
    {
        i = i - 1;
        proof {
            assert(dv.take(i + 1).drop_last() == dv.take(i as int));
            assert(dv.take(i + 1).last() == dv[i as int]);
        }
        if str_eq(d[i].0.as_str(), id) {
            return Some(i);
        }
    }
    None
}

fn first_dead_exec(d: &Vec<(String, Dead)>, deps: &Vec<String>) -> (r: Option<usize>)
    ensures
        match r {
            Some(i) => i < deps@.len() && first_dead(dead_views(d@), deps@, 0) == Some(deps@[i as int]@),
            None => first_dead(dead_views(d@), deps@, 0) is None,
        },
{
    let n = deps.len();
    let mut i: usize = 0;
    while i < n
        invariant
            n == deps@.len(),
            i <= n,
            first_dead(dead_views(d@), deps@, 0) == first_dead(dead_views(d@), deps@, i as int),
        decreases n - i,
    {
        if dead_get_exec(d, deps[i].as_str()).is_some() {
            return Some(i);
        }
        i = i + 1;
    }
    None
}

fn all_plugins_dead_exec(gs: &Vec<(String, EngineGear)>, d: &Vec<(String, Dead)>, host: &EngineGear) -> (r: bool)
    ensures
        r == all_plugins_dead(gs@, dead_views(d@), *host),
{
    let imps = implementers_exec(gs, host);
    let m = imps.len();
    for k in 0..m
        invariant
            m == imps@.len(),
            usize_ints(imps@) == implementers(gs@, *host),
            forall|j: int| 0 <= j < imps@.len() ==> imps@[j] < gs@.len(),
            forall|j: int| 0 <= j < k ==> dead_get(dead_views(d@), gs@[#[trigger] implementers(gs@, *host)[j]].1.id@) is Some,
    {
        proof {
            assert(implementers(gs@, *host)[k as int] == imps@[k as int] as int);
        }
        if dead_get_exec(d, gs[imps[k]].1.id.as_str()).is_none() {
            return false;
        }
    }
    true
}

fn dead_step_exec(gs: &Vec<(String, EngineGear)>, d: &mut Vec<(String, Dead)>, k: usize) -> (changed: bool)
    requires
        k < gs@.len(),
    ensures
        (dead_views(final(d)@), changed) == dead_step(gs@, dead_views(old(d)@), gs@[k as int].1),
{
    let g = &gs[k].1;
    if dead_get_exec(d, g.id.as_str()).is_some() {
        return false;
    }
    let ghost before = dead_views(d@);
    match first_dead_exec(d, &g.colocated_deps) {
        Some(i) => {
            let dep = g.colocated_deps[i].clone();
            d.push((g.id.clone(), Dead::Dep(dep)));
            proof {
                assert(dead_views(d@) =~= before.push((g.id@, DeadWhy::Dep(g.colocated_deps@[i as int]@))));
            }
            return true;
        },
        None => {},
    }
    match host_of_exec(gs, g) {
        Some(h) => {
            if dead_get_exec(d, gs[h].1.id.as_str()).is_some() {
                let hid = gs[h].1.id.clone();
                d.push((g.id.clone(), Dead::Dep(hid)));
                proof {
                    assert(dead_views(d@) =~= before.push((g.id@, DeadWhy::Dep(gs@[h as int].1.id@))));
                }
                return true;
            }
        },
        None => {},
    }
    if g.extension_points.len() > 0 && all_plugins_dead_exec(gs, d, g) {
        d.push((g.id.clone(), Dead::NoPlugin));
        proof {
            assert(dead_views(d@) =~= before.push((g.id@, DeadWhy::NoPlugin)));
        }
        return true;
    }
    false
}

impl EngineCatalogue {
    /// Every gear that cannot run in a product from this corpus, and why.
    pub fn dead(&self) -> (out: Vec<(String, Dead)>)
        ensures
            dead_views(out@) == dead_map(self.gears@),
    {
        let gs = &self.gears;
        let ghost gv = gs@;
        let n = gs.len();
        let mut d: Vec<(String, Dead)> = Vec::new();
        for k in 0..n
            invariant
                n == gv.len(),
                gv == gs@,
                gv == self.gears@,
                dead_views(d@) == initial_dead(gv, k as int),
        {
            let g = &gs[k].1;
            let unset = unset_config_exec(g);
            let ghost before = dead_views(d@);
            if unset.len() > 0 {
                let ghost uv = unset@.map_values(|s: String| s@);
                d.push((g.id.clone(), Dead::NeedsConfig(unset)));
                proof {
                    assert(dead_views(d@) =~= before.push((g.id@, DeadWhy::NeedsConfig(uv))));
                }
            } else if g.fills.is_some() && host_of_exec(gs, g).is_none() {
                d.push((g.id.clone(), Dead::NoHost));
                proof {
                    assert(dead_views(d@) =~= before.push((g.id@, DeadWhy::NoHost)));
                }
            }
        }
        let fuel: u128 = (n as u128) + 1;
        let mut f: u128 = fuel;
        let ghost start = dead_views(d@);
        proof {
            assert(start == initial_dead(gv, gv.len() as int));
        }
        while f > 0
            invariant
                n == gv.len(),
                gv == gs@,
                gv == self.gears@,
                f <= fuel,
                fuel == n + 1,
                dead_map(gv) == dead_rounds(gv, dead_views(d@), f as nat),
            decreases f,
        {
            let ghost at_start = dead_views(d@);
            let mut changed = false;
            for k in 0..n
                invariant
                    n == gv.len(),
                    gv == gs@,
                    gv == self.gears@,
                gv == self.gears@,
                    0 < f <= fuel,
                    fuel == n + 1,
                    dead_map(gv) == dead_rounds(gv, at_start, f as nat),
                    (dead_views(d@), changed) == dead_round(gv, at_start, k as int),
            {
                let c = dead_step_exec(gs, &mut d, k);
                if c {
                    changed = true;
                }
            }
            proof {
                assert(dead_rounds(gv, at_start, f as nat) == if !changed {
                    dead_views(d@)
                } else {
                    dead_rounds(gv, dead_views(d@), (f - 1) as nat)
                });
            }
            if !changed {
                return d;
            }
            f = f - 1;
        }
        d
    }
}

/// Gear `j` must share a binary with gear `k`: one of `j`'s colocated deps
/// is `k`'s key.
pub open spec fn colocated_with(gs: Gears, j: int, k: int) -> bool {
    exists|m: int| 0 <= m < gs[j].1.colocated_deps@.len() && (#[trigger] gs[j].1.colocated_deps@[m])@ == gs[k].0@
}

/// A chain of gears, each sharing a binary with the next, from one whose
/// key is among `roots`.
pub open spec fn colocation_path(gs: Gears, roots: Seq<Seq<char>>, p: Seq<int>) -> bool {
    &&& p.len() > 0
    &&& forall|i: int| 0 <= i < p.len() ==> 0 <= #[trigger] p[i] < gs.len()
    &&& roots.contains(gs[p[0]].0@)
    &&& forall|i: int| 0 <= i < p.len() - 1 ==> colocated_with(gs, #[trigger] p[i], p[i + 1])
}

/// Gear `k` is among `roots` and everything they must share a binary with.
pub open spec fn in_closure(gs: Gears, roots: Seq<Seq<char>>, k: int) -> bool {
    exists|p: Seq<int>| colocation_path(gs, roots, p) && p.last() == k
}

pub open spec fn count_true(s: Seq<bool>) -> nat
    decreases s.len(),
{
    if s.len() == 0 {
        0
    } else {
        count_true(s.drop_last()) + if s.last() { 1nat } else { 0nat }
    }
}

proof fn lemma_count_true_bound(s: Seq<bool>)
    ensures
        count_true(s) <= s.len(),
    decreases s.len(),
{
    if s.len() > 0 {
        lemma_count_true_bound(s.drop_last());
    }
}

proof fn lemma_count_true_set(s: Seq<bool>, k: int)
    requires
        0 <= k < s.len(),
        !s[k],
    ensures
        count_true(s.update(k, true)) == count_true(s) + 1,
    decreases s.len(),
{
    if k < s.len() - 1 {
        lemma_count_true_set(s.drop_last(), k);
        assert(s.update(k, true).drop_last() == s.drop_last().update(k, true));
    } else {
        assert(s.update(k, true).drop_last() == s.drop_last());
    }
}

proof fn lemma_closed_contains(gs: Gears, roots: Seq<Seq<char>>, inc: Seq<bool>, p: Seq<int>)
    requires
        inc.len() == gs.len(),
        colocation_path(gs, roots, p),
        forall|k: int| 0 <= k < gs.len() && roots.contains(gs[k].0@) ==> inc[k],
        forall|j: int, k: int| 0 <= j < gs.len() && 0 <= k < gs.len() && inc[j] && #[trigger] colocated_with(gs, j, k) ==> inc[k],
    ensures
        inc[p.last()],
    decreases p.len(),
{
    if p.len() > 1 {
        let q = p.drop_last();
        assert forall|i: int| 0 <= i < q.len() - 1 implies colocated_with(gs, #[trigger] q[i], q[i + 1]) by {
            assert(q[i] == p[i] && q[i + 1] == p[i + 1]);
        }
        assert(q[0] == p[0]);
        assert forall|i: int| 0 <= i < q.len() implies 0 <= #[trigger] q[i] < gs.len() by {
            assert(q[i] == p[i]);
        }
        lemma_closed_contains(gs, roots, inc, q);
        assert(colocated_with(gs, p[p.len() - 2], p[p.len() - 1]));
    }
}

/// Which gears are among `roots` or must share a binary with them,
/// directly or through others.
fn closure_flags(gs: &Vec<(String, EngineGear)>, roots: &Vec<String>) -> (inc: Vec<bool>)
    ensures
        inc@.len() == gs@.len(),
        forall|k: int| 0 <= k < gs@.len() ==> inc@[k] == in_closure(gs@, roots@.map_values(|s: String| s@), k),
{
    let ghost rv = roots@.map_values(|s: String| s@);
    let n = gs.len();
    let mut inc: Vec<bool> = Vec::new();
    for k in 0..n
        invariant
            n == gs@.len(),
            rv == roots@.map_values(|s: String| s@),
            inc@.len() == k,
            forall|j: int| 0 <= j < k ==> (#[trigger] inc@[j] <==> rv.contains(gs@[j].0@)),
    {
        let mut found = false;
        let nr = roots.len();
        for r in 0..nr
            invariant
                nr == roots@.len(),
                k < n,
                n == gs@.len(),
                rv == roots@.map_values(|s: String| s@),
                found <==> exists|m: int| 0 <= m < r && rv[m] == gs@[k as int].0@,
        {
            proof {
                assert(rv[r as int] == roots@[r as int]@);
            }
            if str_eq(roots[r].as_str(), gs[k].0.as_str()) {
                found = true;
            }
        }
        inc.push(found);
    }
    proof {
        assert forall|k: int| 0 <= k < n && #[trigger] inc@[k] implies in_closure(gs@, rv, k) by {
            let p = seq![k];
            assert(p[0] == k);
            assert(colocation_path(gs@, rv, p));
            assert(p.last() == k);
        }
    }
    loop
        invariant
            n == gs@.len(),
            rv == roots@.map_values(|s: String| s@),
            inc@.len() == n,
            forall|k: int| 0 <= k < n ==> (rv.contains(gs@[k].0@) ==> #[trigger] inc@[k]),
            forall|k: int| 0 <= k < n && #[trigger] inc@[k] ==> in_closure(gs@, rv, k),
        decreases n - count_true(inc@),
    {
        let ghost start = inc@;
        let mut changed = false;
        proof {
            lemma_count_true_bound(inc@);
        }
        for j in 0..n
            invariant
                n == gs@.len(),
                rv == roots@.map_values(|s: String| s@),
                inc@.len() == n,
                start.len() == n,
                forall|k: int| 0 <= k < n ==> (rv.contains(gs@[k].0@) ==> #[trigger] inc@[k]),
                forall|k: int| 0 <= k < n && #[trigger] inc@[k] ==> in_closure(gs@, rv, k),
                changed ==> count_true(inc@) > count_true(start),
                !changed ==> inc@ == start,
                !changed ==> forall|a: int, b: int| 0 <= a < j && 0 <= b < n && inc@[a] && #[trigger] colocated_with(gs@, a, b) ==> inc@[b],
                count_true(inc@) >= count_true(start),
        {
            if inc[j] {
                let deps = &gs[j].1.colocated_deps;
                let nd = deps.len();
                for m in 0..nd
                    invariant
                        n == gs@.len(),
                        j < n,
                        deps == &gs@[j as int].1.colocated_deps,
                        nd == deps@.len(),
                        rv == roots@.map_values(|s: String| s@),
                        inc@.len() == n,
                        start.len() == n,
                        inc@[j as int],
                        forall|k: int| 0 <= k < n ==> (rv.contains(gs@[k].0@) ==> #[trigger] inc@[k]),
                        forall|k: int| 0 <= k < n && #[trigger] inc@[k] ==> in_closure(gs@, rv, k),
                        changed ==> count_true(inc@) > count_true(start),
                        !changed ==> inc@ == start,
                        !changed ==> forall|a: int, b: int| 0 <= a < j && 0 <= b < n && inc@[a] && #[trigger] colocated_with(gs@, a, b) ==> inc@[b],
                        !changed ==> forall|mm: int, b: int| 0 <= mm < m && 0 <= b < n && (#[trigger] deps@[mm])@ == gs@[b].0@ ==> #[trigger] inc@[b],
                        count_true(inc@) >= count_true(start),
                {
                    for k in 0..n
                        invariant
                            n == gs@.len(),
                            j < n,
                            m < nd,
                            deps == &gs@[j as int].1.colocated_deps,
                            nd == deps@.len(),
                            rv == roots@.map_values(|s: String| s@),
                            inc@.len() == n,
                            start.len() == n,
                            inc@[j as int],
                            forall|k: int| 0 <= k < n ==> (rv.contains(gs@[k].0@) ==> #[trigger] inc@[k]),
                            forall|k: int| 0 <= k < n && #[trigger] inc@[k] ==> in_closure(gs@, rv, k),
                            changed ==> count_true(inc@) > count_true(start),
                            !changed ==> inc@ == start,
                            !changed ==> forall|a: int, b: int| 0 <= a < j && 0 <= b < n && inc@[a] && #[trigger] colocated_with(gs@, a, b) ==> inc@[b],
                            !changed ==> forall|mm: int, b: int| 0 <= mm < m && 0 <= b < n && (#[trigger] deps@[mm])@ == gs@[b].0@ ==> #[trigger] inc@[b],
                            !changed ==> forall|b: int| 0 <= b < k && deps@[m as int]@ == gs@[b].0@ ==> #[trigger] inc@[b],
                            count_true(inc@) >= count_true(start),
                    {
                        if !inc[k] && str_eq(deps[m].as_str(), gs[k].0.as_str()) {
                            proof {
                                let p = choose|p: Seq<int>| colocation_path(gs@, rv, p) && p.last() == j;
                                let q = p.push(k as int);
                                assert(colocated_with(gs@, j as int, k as int));
                                assert forall|i: int| 0 <= i < q.len() - 1 implies colocated_with(gs@, #[trigger] q[i], q[i + 1]) by {
                                    if i < p.len() - 1 {
                                        assert(q[i] == p[i] && q[i + 1] == p[i + 1]);
                                    } else {
                                        assert(q[i] == j && q[i + 1] == k);
                                    }
                                }
                                assert forall|i: int| 0 <= i < q.len() implies 0 <= #[trigger] q[i] < gs@.len() by {
                                    if i < p.len() {
                                        assert(q[i] == p[i]);
                                    }
                                }
                                assert(q[0] == p[0]);
                                assert(colocation_path(gs@, rv, q));
                                assert(q.last() == k);
                                lemma_count_true_set(inc@, k as int);
                            }
                            inc.set(k, true);
                            changed = true;
                        }
                    }
                }
                proof {
                    if !changed {
                        assert forall|a: int, b: int| 0 <= a < j + 1 && 0 <= b < n && inc@[a] && #[trigger] colocated_with(gs@, a, b) implies inc@[b] by {
                            if a == j {
                                let mm = choose|mm: int| 0 <= mm < gs@[a].1.colocated_deps@.len() && (#[trigger] gs@[a].1.colocated_deps@[mm])@ == gs@[b].0@;
                                assert(deps@[mm]@ == gs@[b].0@);
                            }
                        }
                    }
                }
            } else {
                proof {
                    if !changed {
                        assert forall|a: int, b: int| 0 <= a < j + 1 && 0 <= b < n && inc@[a] && #[trigger] colocated_with(gs@, a, b) implies inc@[b] by {
                            if a == j {
                                assert(!inc@[a]);
                            }
                        }
                    }
                }
            }
        }
        if !changed {
            proof {
                assert forall|k: int| 0 <= k < n && in_closure(gs@, rv, k) implies #[trigger] inc@[k] by {
                    let p = choose|p: Seq<int>| colocation_path(gs@, rv, p) && p.last() == k;
                    lemma_closed_contains(gs@, rv, inc@, p);
                }
            }
            return inc;
        }
        proof {
            lemma_count_true_bound(inc@);
        }
    }
}

/// What a plugin is ranked by when nobody chose one: the runtime's own
/// priority (lower wins, none last), then a `static` one, then by id.
pub open spec fn plugin_rank(g: EngineGear) -> (int, bool, Seq<char>) {
    (
        match g.fills {
            Some(f) => match f.default_priority {
                Some(p) => p as int,
                None => i64::MAX as int,
            },
            None => i64::MAX as int,
        },
        !contains(g.id@, "static"@),
        g.id@,
    )
}

pub open spec fn rank_lt(a: (int, bool, Seq<char>), b: (int, bool, Seq<char>)) -> bool {
    ||| a.0 < b.0
    ||| a.0 == b.0 && !a.1 && b.1
    ||| a.0 == b.0 && a.1 == b.1 && seq_lt(a.2, b.2)
}

/// The candidates that are not dead, in order.
pub open spec fn alive_of(gs: Gears, d: DeadMap, cands: Seq<int>) -> Seq<int>
    decreases cands.len(),
{
    if cands.len() == 0 {
        seq![]
    } else {
        let rest = alive_of(gs, d, cands.drop_last());
        if dead_get(d, gs[cands.last()].1.id@) is None {
            rest.push(cands.last())
        } else {
            rest
        }
    }
}

/// The first of the candidates with the least rank.
pub open spec fn best_of(gs: Gears, cands: Seq<int>) -> Option<int>
    decreases cands.len(),
{
    if cands.len() == 0 {
        None
    } else {
        match best_of(gs, cands.drop_last()) {
            None => Some(cands.last()),
            Some(b) => if rank_lt(plugin_rank(gs[cands.last()].1), plugin_rank(gs[b].1)) {
                Some(cands.last())
            } else {
                Some(b)
            },
        }
    }
}

/// The plugin to put under `host` when nobody chose one: alive, then the
/// runtime's priority (lower wins), then a `static` one — it runs with no
/// external service, which is what a first build needs — then by id.
pub open spec fn default_plugin(gs: Gears, d: DeadMap, host: EngineGear) -> Option<int> {
    best_of(gs, alive_of(gs, d, implementers(gs, host)))
}

fn rank_lt_exec(a: &EngineGear, b: &EngineGear) -> (r: bool)
    ensures
        r == rank_lt(plugin_rank(*a), plugin_rank(*b)),
{
    let pa: i64 = match &a.fills {
        Some(f) => match f.default_priority {
            Some(p) => p,
            None => i64::MAX,
        },
        None => i64::MAX,
    };
    let pb: i64 = match &b.fills {
        Some(f) => match f.default_priority {
            Some(p) => p,
            None => i64::MAX,
        },
        None => i64::MAX,
    };
    let stat: Vec<char> = vec!['s', 't', 'a', 't', 'i', 'c'];
    proof {
        reveal_strlit("static");
        assert(stat@ == "static"@);
    }
    let sa = !contains_exec(&chars_of(a.id.as_str()), &stat);
    let sb = !contains_exec(&chars_of(b.id.as_str()), &stat);
    if pa < pb {
        true
    } else if pa == pb && !sa && sb {
        true
    } else if pa == pb && sa == sb {
        lex_lt(&chars_of(a.id.as_str()), &chars_of(b.id.as_str()))
    } else {
        false
    }
}

fn default_plugin_exec(gs: &Vec<(String, EngineGear)>, d: &Vec<(String, Dead)>, host: &EngineGear) -> (r: Option<usize>)
    ensures
        match r {
            Some(k) => default_plugin(gs@, dead_views(d@), *host) == Some(k as int) && k < gs@.len(),
            None => default_plugin(gs@, dead_views(d@), *host) is None,
        },
{
    let ghost dv = dead_views(d@);
    let imps = implementers_exec(gs, host);
    let ghost iv = usize_ints(imps@);
    let m = imps.len();
    let mut alive: Vec<usize> = Vec::new();
    for k in 0..m
        invariant
            m == imps@.len(),
            iv == usize_ints(imps@),
            dv == dead_views(d@),
            forall|j: int| 0 <= j < imps@.len() ==> imps@[j] < gs@.len(),
            forall|j: int| 0 <= j < alive@.len() ==> #[trigger] alive@[j] < gs@.len(),
            usize_ints(alive@) == alive_of(gs@, dv, iv.take(k as int)),
    {
        proof {
            assert(iv.take(k + 1).drop_last() == iv.take(k as int));
            assert(iv.take(k + 1).last() == imps@[k as int] as int);
        }
        if dead_get_exec(d, gs[imps[k]].1.id.as_str()).is_none() {
            let ghost before = usize_ints(alive@);
            alive.push(imps[k]);
            proof {
                assert(usize_ints(alive@) =~= before.push(imps@[k as int] as int));
            }
        }
    }
    proof {
        assert(iv.take(m as int) == iv);
    }
    let ghost av = usize_ints(alive@);
    let na = alive.len();
    let mut best: Option<usize> = None;
    for k in 0..na
        invariant
            na == alive@.len(),
            av == usize_ints(alive@),
            forall|j: int| 0 <= j < alive@.len() ==> #[trigger] alive@[j] < gs@.len(),
            match best {
                Some(b) => best_of(gs@, av.take(k as int)) == Some(b as int) && b < gs@.len(),
                None => best_of(gs@, av.take(k as int)) is None,
            },
    {
        proof {
            assert(av.take(k + 1).drop_last() == av.take(k as int));
            assert(av.take(k + 1).last() == alive@[k as int] as int);
        }
        let c = alive[k];
        best = match best {
            None => Some(c),
            Some(b) => if rank_lt_exec(&gs[c].1, &gs[b].1) {
                Some(c)
            } else {
                Some(b)
            },
        };
    }
    proof {
        assert(av.take(na as int) == av);
    }
    best
}

/// A gear's crate name by its key, or the key itself where no gear has it.
pub open spec fn crate_of(gs: Gears, id: Seq<char>) -> Seq<char> {
    match index_of_key(gs, id, 0) {
        Some(i) => gs[i].1.package.crate_name@,
        None => id,
    }
}

fn crate_of_exec(gs: &Vec<(String, EngineGear)>, id: &str) -> (out: String)
    ensures
        out@ == crate_of(gs@, id@),
{
    match index_of_key_exec(gs, id) {
        Some(i) => gs[i].1.package.crate_name.clone(),
        None => id.to_string(),
    }
}

/// Why a gear cannot run, in words.
pub open spec fn dead_reason(gs: Gears, why: DeadWhy) -> Seq<char> {
    match why {
        DeadWhy::NeedsConfig(fields) => "needs configuration nobody has given yet: "@ + join_str(fields, ", "@)
            + " — add it back and set it in product.gdl"@,
        DeadWhy::NoPlugin => "no plugin in the corpus fills its extension point"@,
        DeadWhy::NoHost => "a plugin for an extension point no gear in the corpus hosts"@,
        DeadWhy::Dep(dep) => "must run with "@ + crate_of(gs, dep) + ", which cannot run here"@,
    }
}

fn dead_reason_exec(gs: &Vec<(String, EngineGear)>, why: &Dead) -> (out: String)
    ensures
        out@ == dead_reason(gs@, dead_view(*why)),
{
    let mut t: Vec<char> = Vec::new();
    match why {
        Dead::NeedsConfig(fields) => {
            push_str(&mut t, "needs configuration nobody has given yet: ");
            let j = join_strings(fields, ", ");
            push_str(&mut t, j.as_str());
            push_str(&mut t, " — add it back and set it in product.gdl");
        },
        Dead::NoPlugin => {
            push_str(&mut t, "no plugin in the corpus fills its extension point");
        },
        Dead::NoHost => {
            push_str(&mut t, "a plugin for an extension point no gear in the corpus hosts");
        },
        Dead::Dep(dep) => {
            push_str(&mut t, "must run with ");
            let c = crate_of_exec(gs, dep.as_str());
            push_str(&mut t, c.as_str());
            push_str(&mut t, ", which cannot run here");
        },
    }
    string_of(&t)
}

/// One thing `complete` did to a pick, and why — shown to the person, who
/// is entitled to undo any of it.
#[derive(Debug, Clone, PartialEq, Eq)]
pub struct Change {
    /// Crate name, like every pick.
    pub gear: String,
    pub added: bool,
    pub reason: String,
}

#[derive(Debug, Clone, PartialEq, Eq)]
pub struct Completion {
    /// The completed picks, by crate name, in pick order with additions last.
    pub gears: Vec<String>,
    pub changes: Vec<Change>,
}

pub type ChangeV = (Seq<char>, bool, Seq<char>);

pub open spec fn change_views(v: Seq<Change>) -> Seq<ChangeV> {
    v.map_values(|c: Change| (c.gear@, c.added, c.reason@))
}

pub open spec fn str_views(v: Seq<String>) -> Seq<Seq<char>> {
    v.map_values(|s: String| s@)
}

/// The picked ids so far, and the changes.
pub type Picks = (Seq<Seq<char>>, Seq<ChangeV>);

/// One pick: blank ones are passed over; one no `gear.gdl` describes is
/// reported once; a dead one is dropped with its reason; any other is
/// kept, once.
pub open spec fn pick_step(gs: Gears, d: DeadMap, st: Picks, name: Seq<char>) -> Picks {
    let t = trim(name);
    if t.len() == 0 {
        st
    } else {
        match find_gear(gs, t) {
            None => if exists|c: int| 0 <= c < st.1.len() && (#[trigger] st.1[c]).0 == t {
                st
            } else {
                (st.0, st.1.push((t, false, "no gear.gdl describes it yet, so it cannot be composed"@)))
            },
            Some(i) => match dead_get(d, gs[i].1.id@) {
                Some(why) => (st.0, st.1.push((gs[i].1.package.crate_name@, false, dead_reason(gs, why)))),
                None => if st.0.contains(gs[i].1.id@) {
                    st
                } else {
                    (st.0.push(gs[i].1.id@), st.1)
                },
            },
        }
    }
}

pub open spec fn picks_of(gs: Gears, d: DeadMap, picked: Seq<String>) -> Picks
    decreases picked.len(),
{
    if picked.len() == 0 {
        (seq![], seq![])
    } else {
        pick_step(gs, d, picks_of(gs, d, picked.drop_last()), picked.last()@)
    }
}

/// The set so far, the changes, and whether this round added anything.
pub type RoundState = (Seq<Seq<char>>, Seq<ChangeV>, bool);

/// Some plugin of `host` is in the set.
pub open spec fn filled_by(gs: Gears, set: Seq<Seq<char>>, host: EngineGear) -> bool {
    exists|k: int| 0 <= k < implementers(gs, host).len() && set.contains(gs[#[trigger] implementers(gs, host)[k]].1.id@)
}

/// Gear `k`, where the round began with it in the product: a host with an
/// extension point no plugin in the set fills gets its default plugin.
pub open spec fn host_step(gs: Gears, d: DeadMap, roots: Seq<Seq<char>>, st: RoundState, k: int) -> RoundState {
    let host = gs[k].1;
    if !in_closure(gs, roots, k) || host.extension_points@.len() == 0 || filled_by(gs, st.0, host) {
        st
    } else {
        match default_plugin(gs, d, host) {
            Some(p) => (
                st.0.push(gs[p].1.id@),
                st.1.push((gs[p].1.package.crate_name@, true, crate_of(gs, gs[k].0@) + " needs a plugin; this one runs with no configuration"@)),
                true,
            ),
            None => st,
        }
    }
}

pub open spec fn host_pass(gs: Gears, d: DeadMap, roots: Seq<Seq<char>>, st: RoundState, n: int) -> RoundState
    decreases n,
{
    if n <= 0 || n > gs.len() {
        st
    } else {
        host_step(gs, d, roots, host_pass(gs, d, roots, st, n - 1), n - 1)
    }
}

/// Some gear in the product has the runtime capability `cap`.
pub open spec fn has_cap(gs: Gears, roots: Seq<Seq<char>>, cap: Seq<char>) -> bool {
    exists|k: int| 0 <= k < gs.len() && in_closure(gs, roots, k) && str_views(gs[k].1.runtime_caps@).contains(cap)
}

/// The first gear at or after `i` that can host REST routes and is alive.
pub open spec fn rest_host_from(gs: Gears, d: DeadMap, i: int) -> Option<int>
    decreases gs.len() - i,
{
    if i < 0 || i >= gs.len() {
        None
    } else if str_views(gs[i].1.runtime_caps@).contains("rest_host"@) && dead_get(d, gs[i].1.id@) is None {
        Some(i)
    } else {
        rest_host_from(gs, d, i + 1)
    }
}

/// REST gears with nothing to serve them get the first REST host alive.
pub open spec fn rest_step(gs: Gears, d: DeadMap, st: RoundState) -> RoundState {
    if has_cap(gs, st.0, "rest"@) && !has_cap(gs, st.0, "rest_host"@) {
        match rest_host_from(gs, d, 0) {
            Some(h) => (
                st.0.push(gs[h].1.id@),
                st.1.push((gs[h].1.package.crate_name@, true, "the REST gears need a REST host to serve their routes"@)),
                true,
            ),
            None => st,
        }
    } else {
        st
    }
}

pub open spec fn completion_round(gs: Gears, d: DeadMap, st: Picks) -> RoundState {
    rest_step(gs, d, host_pass(gs, d, st.0, (st.0, st.1, false), gs.len() as int))
}

/// Rounds of additions until one adds nothing, at most `fuel` of them.
pub open spec fn completion_rounds(gs: Gears, d: DeadMap, st: Picks, fuel: nat) -> Picks
    decreases fuel,
{
    if fuel == 0 {
        st
    } else {
        let r = completion_round(gs, d, st);
        if !r.2 {
            (r.0, r.1)
        } else {
            completion_rounds(gs, d, (r.0, r.1), (fuel - 1) as nat)
        }
    }
}

/// What `complete` returns for these picks: the completed set by crate name
/// and the changes, in order.
pub open spec fn completion_of(gs: Gears, picked: Seq<String>) -> (Seq<Seq<char>>, Seq<ChangeV>) {
    let d = dead_map(gs);
    let fuel: nat = if gs.len() == 0 { 1 } else { gs.len() };
    let st = completion_rounds(gs, d, picks_of(gs, d, picked), fuel);
    (st.0.map_values(|id: Seq<char>| crate_of(gs, id)), st.1)
}

fn set_contains(set: &Vec<String>, id: &str) -> (r: bool)
    ensures
        r == str_views(set@).contains(id@),
{
    let n = set.len();
    for i in 0..n
        invariant
            n == set@.len(),
            forall|j: int| 0 <= j < i ==> set@[j]@ != id@,
    {
        if str_eq(set[i].as_str(), id) {
            assert(str_views(set@)[i as int] == id@);
            return true;
        }
    }
    proof {
        assert forall|j: int| 0 <= j < str_views(set@).len() implies str_views(set@)[j] != id@ by {
            assert(str_views(set@)[j] == set@[j]@);
        }
    }
    false
}

fn filled_by_exec(gs: &Vec<(String, EngineGear)>, set: &Vec<String>, host: &EngineGear) -> (r: bool)
    ensures
        r == filled_by(gs@, str_views(set@), *host),
{
    let imps = implementers_exec(gs, host);
    let m = imps.len();
    for k in 0..m
        invariant
            m == imps@.len(),
            usize_ints(imps@) == implementers(gs@, *host),
            forall|j: int| 0 <= j < imps@.len() ==> imps@[j] < gs@.len(),
            forall|j: int| 0 <= j < k ==> !str_views(set@).contains(gs@[#[trigger] implementers(gs@, *host)[j]].1.id@),
    {
        proof {
            assert(implementers(gs@, *host)[k as int] == imps@[k as int] as int);
        }
        if set_contains(set, gs[imps[k]].1.id.as_str()) {
            return true;
        }
    }
    false
}

fn caps_contain(g: &EngineGear, cap: &str) -> (r: bool)
    ensures
        r == str_views(g.runtime_caps@).contains(cap@),
{
    set_contains(&g.runtime_caps, cap)
}

fn has_cap_exec(gs: &Vec<(String, EngineGear)>, set: &Vec<String>, cap: &str) -> (r: bool)
    ensures
        r == has_cap(gs@, str_views(set@), cap@),
{
    let inc = closure_flags(gs, set);
    let n = gs.len();
    for k in 0..n
        invariant
            n == gs@.len(),
            inc@.len() == n,
            forall|j: int| 0 <= j < n ==> inc@[j] == in_closure(gs@, str_views(set@), j),
            forall|j: int| 0 <= j < k ==> !(in_closure(gs@, str_views(set@), j) && str_views(gs@[j].1.runtime_caps@).contains(cap@)),
    {
        if inc[k] && caps_contain(&gs[k].1, cap) {
            return true;
        }
    }
    false
}

fn rest_host_exec(gs: &Vec<(String, EngineGear)>, d: &Vec<(String, Dead)>) -> (r: Option<usize>)
    ensures
        match r {
            Some(h) => rest_host_from(gs@, dead_views(d@), 0) == Some(h as int) && h < gs@.len(),
            None => rest_host_from(gs@, dead_views(d@), 0) is None,
        },
{
    let n = gs.len();
    let mut i: usize = 0;
    proof {
        reveal_strlit("rest_host");
    }
    while i < n
        invariant
            n == gs@.len(),
            i <= n,
            rest_host_from(gs@, dead_views(d@), 0) == rest_host_from(gs@, dead_views(d@), i as int),
        decreases n - i,
    {
        if caps_contain(&gs[i].1, "rest_host") && dead_get_exec(d, gs[i].1.id.as_str()).is_none() {
            return Some(i);
        }
        i = i + 1;
    }
    None
}

fn completion_round_exec(
    gs: &Vec<(String, EngineGear)>,
    d: &Vec<(String, Dead)>,
    set: &mut Vec<String>,
    changes: &mut Vec<Change>,
) -> (added: bool)
    ensures
        (str_views(final(set)@), change_views(final(changes)@), added) == completion_round(
            gs@,
            dead_views(d@),
            (str_views(old(set)@), change_views(old(changes)@)),
        ),
{
    let ghost dv = dead_views(d@);
    let ghost roots = str_views(set@);
    let ghost st0: RoundState = (str_views(set@), change_views(changes@), false);
    let inc = closure_flags(gs, set);
    let n = gs.len();
    let mut added = false;
    for k in 0..n
        invariant
            n == gs@.len(),
            dv == dead_views(d@),
            inc@.len() == n,
            forall|j: int| 0 <= j < n ==> inc@[j] == in_closure(gs@, roots, j),
            (str_views(set@), change_views(changes@), added) == host_pass(gs@, dv, roots, st0, k as int),
    {
        let host = &gs[k].1;
        if inc[k] && host.extension_points.len() > 0 && !filled_by_exec(gs, set, host) {
            match default_plugin_exec(gs, d, host) {
                Some(p) => {
                    let ghost sv = str_views(set@);
                    let ghost cv = change_views(changes@);
                    set.push(gs[p].1.id.clone());
                    let mut t: Vec<char> = Vec::new();
                    let c = crate_of_exec(gs, gs[k].0.as_str());
                    push_str(&mut t, c.as_str());
                    push_str(&mut t, " needs a plugin; this one runs with no configuration");
                    let ch = Change { gear: gs[p].1.package.crate_name.clone(), added: true, reason: string_of(&t) };
                    let ghost chv = (ch.gear@, ch.added, ch.reason@);
                    changes.push(ch);
                    added = true;
                    proof {
                        assert(str_views(set@) =~= sv.push(gs@[p as int].1.id@));
                        assert(change_views(changes@) =~= cv.push(chv));
                    }
                },
                None => {},
            }
        }
    }
    let ghost mid: RoundState = (str_views(set@), change_views(changes@), added);
    proof {
        reveal_strlit("rest");
        reveal_strlit("rest_host");
    }
    if has_cap_exec(gs, set, "rest") && !has_cap_exec(gs, set, "rest_host") {
        match rest_host_exec(gs, d) {
            Some(h) => {
                let ghost sv = str_views(set@);
                let ghost cv = change_views(changes@);
                set.push(gs[h].1.id.clone());
                let mut t: Vec<char> = Vec::new();
                push_str(&mut t, "the REST gears need a REST host to serve their routes");
                let ch = Change { gear: gs[h].1.package.crate_name.clone(), added: true, reason: string_of(&t) };
                let ghost chv = (ch.gear@, ch.added, ch.reason@);
                changes.push(ch);
                added = true;
                proof {
                    assert(str_views(set@) =~= sv.push(gs@[h as int].1.id@));
                    assert(change_views(changes@) =~= cv.push(chv));
                }
            },
            None => {},
        }
    }
    added
}

fn pick_step_exec(
    gs: &Vec<(String, EngineGear)>,
    d: &Vec<(String, Dead)>,
    set: &mut Vec<String>,
    changes: &mut Vec<Change>,
    name: &String,
)
    ensures
        (str_views(final(set)@), change_views(final(changes)@)) == pick_step(
            gs@,
            dead_views(d@),
            (str_views(old(set)@), change_views(old(changes)@)),
            name@,
        ),
{
    let t = string_of(&trim_chars(&chars_of(name.as_str())));
    if t.as_str().is_empty() {
        return;
    }
    let found = match index_of_key_exec(gs, t.as_str()) {
        Some(i) => Some(i),
        None => index_of_crate_exec(gs, t.as_str()),
    };
    let ghost sv = str_views(set@);
    let ghost cv = change_views(changes@);
    match found {
        None => {
            let nc = changes.len();
            let mut seen = false;
            for c in 0..nc
                invariant
                    nc == changes@.len(),
                    cv == change_views(changes@),
                    seen <==> exists|j: int| 0 <= j < c && (#[trigger] cv[j]).0 == t@,
            {
                proof {
                    assert(cv[c as int].0 == changes@[c as int].gear@);
                }
                if str_eq(changes[c].gear.as_str(), t.as_str()) {
                    seen = true;
                }
            }
            if !seen {
                let mut r: Vec<char> = Vec::new();
                push_str(&mut r, "no gear.gdl describes it yet, so it cannot be composed");
                let ch = Change { gear: t, added: false, reason: string_of(&r) };
                let ghost chv = (ch.gear@, ch.added, ch.reason@);
                changes.push(ch);
                proof {
                    assert(change_views(changes@) =~= cv.push(chv));
                }
            }
        },
        Some(i) => {
            let g = &gs[i].1;
            match dead_get_exec(d, g.id.as_str()) {
                Some(k) => {
                    let reason = dead_reason_exec(gs, &d[k].1);
                    let ch = Change { gear: g.package.crate_name.clone(), added: false, reason };
                    let ghost chv = (ch.gear@, ch.added, ch.reason@);
                    changes.push(ch);
                    proof {
                        assert(change_views(changes@) =~= cv.push(chv));
                    }
                },
                None => {
                    if !set_contains(set, g.id.as_str()) {
                        set.push(g.id.clone());
                        proof {
                            assert(str_views(set@) =~= sv.push(g.id@));
                        }
                    }
                },
            }
        },
    }
}

/// Turn picks into a set the engine can resolve, saying what changed and
/// why.
///
/// Only what the catalogue proves: a gear is dropped when its own
/// descriptor, or one it must share a binary with, rules it out; a plugin
/// is added when a host in the product has none; a REST host when REST
/// gears have nothing to serve them. Nothing is guessed about what the
/// product is for; the engine still has the last word.
pub fn complete(catalogue: &EngineCatalogue, picked: &[String]) -> (out: Completion)
    requires
        catalogue.wf(),
    ensures
        (str_views(out.gears@), change_views(out.changes@)) == completion_of(catalogue.gears@, picked@),
{
    let gs = &catalogue.gears;
    let d = catalogue.dead();
    let ghost dv = dead_views(d@);
    let mut set: Vec<String> = Vec::new();
    let mut changes: Vec<Change> = Vec::new();
    let np = picked.len();
    for i in 0..np
        invariant
            np == picked@.len(),
            dv == dead_views(d@),
            (str_views(set@), change_views(changes@)) == picks_of(gs@, dv, picked@.take(i as int)),
    {
        proof {
            assert(picked@.take(i + 1).drop_last() == picked@.take(i as int));
            assert(picked@.take(i + 1).last() == picked@[i as int]);
        }
        pick_step_exec(gs, &d, &mut set, &mut changes, &picked[i]);
    }
    proof {
        assert(picked@.take(np as int) == picked@);
    }
    let n = gs.len();
    let fuel: usize = if n == 0 { 1 } else { n };
    let mut f = fuel;
    while f > 0
        invariant_except_break
            completion_rounds(gs@, dv, picks_of(gs@, dv, picked@), fuel as nat) == completion_rounds(
                gs@,
                dv,
                (str_views(set@), change_views(changes@)),
                f as nat,
            ),
        invariant
            dv == dead_views(d@),
            dv == dead_map(gs@),
            f <= fuel,
        ensures
            completion_rounds(gs@, dv, picks_of(gs@, dv, picked@), fuel as nat) == (
                str_views(set@),
                change_views(changes@),
            ),
        decreases f,
    {
        let ghost before: Picks = (str_views(set@), change_views(changes@));
        let added = completion_round_exec(gs, &d, &mut set, &mut changes);
        proof {
            assert(completion_rounds(gs@, dv, before, f as nat) == if !added {
                (str_views(set@), change_views(changes@))
            } else {
                completion_rounds(gs@, dv, (str_views(set@), change_views(changes@)), (f - 1) as nat)
            });
        }
        if !added {
            break;
        }
        f = f - 1;
    }
    let ghost fin = (str_views(set@), change_views(changes@));
    let ns = set.len();
    let mut gears: Vec<String> = Vec::new();
    for i in 0..ns
        invariant
            ns == set@.len(),
            str_views(gears@) == str_views(set@).take(i as int).map_values(|id: Seq<char>| crate_of(gs@, id)),
    {
        let c = crate_of_exec(gs, set[i].as_str());
        let ghost before = str_views(gears@);
        gears.push(c);
        proof {
            assert(str_views(gears@) =~= before.push(c@));
            assert(str_views(set@).take(i + 1).map_values(|id: Seq<char>| crate_of(gs@, id)) =~= str_views(set@).take(
                i as int,
            ).map_values(|id: Seq<char>| crate_of(gs@, id)).push(crate_of(gs@, set@[i as int]@)));
        }
    }
    proof {
        assert(str_views(set@).take(ns as int) == str_views(set@));
    }
    Completion { gears, changes }
}

// ── Composition: the picked gears as product.gdl declarations ─────────────

/// Each before the next, so each once.
pub open spec fn strictly_sorted(s: Seq<Seq<char>>) -> bool {
    forall|i: int, j: int| 0 <= i < j < s.len() ==> seq_lt(#[trigger] s[i], #[trigger] s[j])
}

/// Insert `x` into a strictly sorted list, keeping it so.
pub(crate) fn insert_sorted(v: &mut Vec<String>, x: String)
    requires
        strictly_sorted(str_views(old(v)@)),
    ensures
        strictly_sorted(str_views(final(v)@)),
        str_views(final(v)@).to_set() == str_views(old(v)@).to_set().insert(x@),
{
    let ghost old_v = str_views(v@);
    let n = v.len();
    let xv = chars_of(x.as_str());
    let mut j: usize = 0;
    while j < n && lex_lt(&chars_of(v[j].as_str()), &xv)
        invariant
            n == v@.len(),
            j <= n,
            xv@ == x@,
            old_v == str_views(v@),
            forall|k: int| 0 <= k < j ==> seq_lt(#[trigger] old_v[k], x@),
        decreases n - j,
    {
        proof {
            assert(old_v[j as int] == v@[j as int]@);
        }
        j = j + 1;
    }
    if j < n && str_eq(v[j].as_str(), x.as_str()) {
        proof {
            assert(old_v[j as int] == x@);
            assert(old_v.to_set().insert(x@) =~= old_v.to_set());
        }
        return;
    }
    proof {
        if j < n {
            assert(old_v[j as int] == v@[j as int]@);
            lemma_seq_lt_total(old_v[j as int], x@);
        }
    }
    v.insert(j, x);
    proof {
        let nv = str_views(v@);
        assert(nv =~= old_v.insert(j as int, x@));
        assert forall|a: int, b: int| 0 <= a < b < nv.len() implies seq_lt(#[trigger] nv[a], #[trigger] nv[b]) by {
            if b < j {
            } else if b == j {
                assert(nv[a] == old_v[a]);
            } else if a < j {
                assert(nv[a] == old_v[a]);
                assert(nv[b] == old_v[b - 1]);
                lemma_seq_lt_transitive(old_v[a], x@, old_v[j as int]);
                if b - 1 > j {
                    lemma_seq_lt_transitive(old_v[a], old_v[j as int], old_v[b - 1]);
                }
            } else if a == j {
                assert(nv[b] == old_v[b - 1]);
                if b - 1 > j {
                    lemma_seq_lt_transitive(x@, old_v[j as int], old_v[b - 1]);
                }
            } else {
                assert(nv[a] == old_v[a - 1]);
                assert(nv[b] == old_v[b - 1]);
            }
        }
        assert(nv.to_set() =~= old_v.to_set().insert(x@)) by {
            assert forall|y: Seq<char>| nv.to_set().contains(y) implies old_v.to_set().insert(x@).contains(y) by {
                let k = choose|k: int| 0 <= k < nv.len() && nv[k] == y;
                if k < j {
                    assert(old_v[k] == y);
                } else if k > j {
                    assert(old_v[k - 1] == y);
                }
            }
            assert forall|y: Seq<char>| old_v.to_set().insert(x@).contains(y) implies nv.to_set().contains(y) by {
                if y == x@ {
                    assert(nv[j as int] == y);
                } else {
                    let k = choose|k: int| 0 <= k < old_v.len() && old_v[k] == y;
                    if k < j {
                        assert(nv[k] == y);
                    } else {
                        assert(nv[k + 1] == y);
                    }
                }
            }
        }
    }
}

/// The gears written so far, each once, in the order first met, with the
/// plugins to write under each.
pub type Entries = Seq<(Seq<char>, Set<Seq<char>>)>;

pub open spec fn entry_index(es: Entries, id: Seq<char>, i: int) -> Option<int>
    decreases es.len() - i,
{
    if i < 0 || i >= es.len() {
        None
    } else if es[i].0 == id {
        Some(i)
    } else {
        entry_index(es, id, i + 1)
    }
}

pub open spec fn add_entry(es: Entries, id: Seq<char>) -> Entries {
    if entry_index(es, id, 0) is Some {
        es
    } else {
        es.push((id, Set::empty()))
    }
}

/// `plugin` written under `id`, which is already an entry.
pub open spec fn add_plugin(es: Entries, id: Seq<char>, plugin: Seq<char>) -> Entries {
    match entry_index(es, id, 0) {
        Some(k) => es.update(k, (id, es[k].1.insert(plugin))),
        None => es,
    }
}

/// Some pick, as written, names a gear with engine id `id`.
pub open spec fn picked_as(gs: Gears, picked: Seq<String>, id: Seq<char>) -> bool {
    exists|p: int| 0 <= p < picked.len() && (match find_gear(gs, (#[trigger] picked[p])@) {
        Some(j) => gs[j].1.id@ == id,
        None => false,
    })
}

/// The entries, the hosts added for a picked plugin `(host, plugin)`, and
/// the picks no `gear.gdl` describes.
pub type ComposeState = (Entries, Seq<(Seq<char>, Seq<char>)>, Seq<Seq<char>>);

/// One pick: blank ones are passed over; one the catalogue does not know
/// is reported once; a plugin goes under its host, which comes along when
/// nothing picked names it; anything else is written as itself.
pub open spec fn compose_step(gs: Gears, picked: Seq<String>, st: ComposeState, name: Seq<char>) -> ComposeState {
    let t = trim(name);
    if t.len() == 0 {
        st
    } else {
        match find_gear(gs, t) {
            None => if st.2.contains(t) {
                st
            } else {
                (st.0, st.1, st.2.push(t))
            },
            Some(i) => {
                let gear = gs[i].1;
                match host_of(gs, gear) {
                    Some(h) => {
                        let hid = gs[h].1.id@;
                        let ah = if entry_index(st.0, hid, 0) is None && !picked_as(gs, picked, hid) {
                            st.1.push((hid, gear.id@))
                        } else {
                            st.1
                        };
                        (add_plugin(add_entry(st.0, hid), hid, gear.id@), ah, st.2)
                    },
                    None => (add_entry(st.0, gear.id@), st.1, st.2),
                }
            },
        }
    }
}

pub open spec fn compose_scan(gs: Gears, picked: Seq<String>, names: Seq<String>) -> ComposeState
    decreases names.len(),
{
    if names.len() == 0 {
        (seq![], seq![], seq![])
    } else {
        compose_step(gs, picked, compose_scan(gs, picked, names.drop_last()), names.last()@)
    }
}

/// Hosts written with no plugin whose extension point some corpus gear
/// fills: `(host, [plugin crate, ...])`.
pub open spec fn options_of(gs: Gears, es: Entries) -> Seq<(Seq<char>, Seq<Seq<char>>)>
    decreases es.len(),
{
    if es.len() == 0 {
        seq![]
    } else {
        let rest = options_of(gs, es.drop_last());
        let e = es.last();
        match index_of_key(gs, e.0, 0) {
            Some(h) => {
                let avail = implementers(gs, gs[h].1).map_values(|k: int| gs[k].1.package.crate_name@);
                if gs[h].1.extension_points@.len() > 0 && e.1 == Set::<Seq<char>>::empty() && avail.len() > 0 {
                    rest.push((e.0, avail))
                } else {
                    rest
                }
            },
            None => rest,
        }
    }
}

pub open spec fn pair_strs(v: Seq<(String, String)>) -> Seq<(Seq<char>, Seq<char>)> {
    v.map_values(|p: (String, String)| (p.0@, p.1@))
}

pub open spec fn option_views(v: Seq<(String, Vec<String>)>) -> Seq<(Seq<char>, Seq<Seq<char>>)> {
    v.map_values(|p: (String, Vec<String>)| (p.0@, str_views(p.1@)))
}

/// The exec entries agree with the spec ones: ids in order, plugins sorted.
pub open spec fn entries_match(ids: Seq<String>, plugins: Seq<Vec<String>>, es: Entries) -> bool {
    &&& ids.len() == es.len()
    &&& plugins.len() == es.len()
    &&& forall|k: int| 0 <= k < es.len() ==> (#[trigger] es[k]).0 == ids[k]@
    &&& forall|k: int| 0 <= k < es.len() ==> strictly_sorted(str_views(#[trigger] plugins[k]@))
    &&& forall|k: int| 0 <= k < es.len() ==> str_views(#[trigger] plugins[k]@).to_set() == es[k].1
}

fn entry_index_exec(ids: &Vec<String>, id: &str) -> (r: Option<usize>)
    ensures
        forall|es: Entries| #![trigger entry_index(es, id@, 0)]
            es.len() == ids@.len() && (forall|k: int| 0 <= k < es.len() ==> (#[trigger] es[k]).0 == ids@[k]@) ==> match r {
                Some(i) => entry_index(es, id@, 0) == Some(i as int) && i < ids@.len(),
                None => entry_index(es, id@, 0) is None,
            },
{
    let n = ids.len();
    let mut i: usize = 0;
    while i < n
        invariant
            n == ids@.len(),
            i <= n,
            forall|k: int| 0 <= k < i ==> ids@[k]@ != id@,
        decreases n - i,
    {
        if str_eq(ids[i].as_str(), id) {
            proof {
                assert forall|es: Entries| #![trigger entry_index(es, id@, 0)]
                    es.len() == ids@.len() && (forall|k: int| 0 <= k < es.len() ==> (#[trigger] es[k]).0 == ids@[k]@) implies entry_index(es, id@, 0) == Some(i as int) by {
                    lemma_entry_index_at(es, id@, 0, i as int);
                }
            }
            return Some(i);
        }
        i = i + 1;
    }
    proof {
        assert forall|es: Entries| #![trigger entry_index(es, id@, 0)]
            es.len() == ids@.len() && (forall|k: int| 0 <= k < es.len() ==> (#[trigger] es[k]).0 == ids@[k]@) implies entry_index(es, id@, 0) is None by {
            lemma_entry_index_none(es, id@, 0);
        }
    }
    None
}

proof fn lemma_entry_index_at(es: Entries, id: Seq<char>, i: int, at: int)
    requires
        0 <= i <= at < es.len(),
        es[at].0 == id,
        forall|k: int| i <= k < at ==> (#[trigger] es[k]).0 != id,
    ensures
        entry_index(es, id, i) == Some(at),
    decreases at - i,
{
    if i < at {
        lemma_entry_index_at(es, id, i + 1, at);
    }
}

proof fn lemma_entry_index_none(es: Entries, id: Seq<char>, i: int)
    requires
        0 <= i,
        forall|k: int| i <= k < es.len() ==> (#[trigger] es[k]).0 != id,
    ensures
        entry_index(es, id, i) is None,
    decreases es.len() - i,
{
    if i < es.len() {
        lemma_entry_index_none(es, id, i + 1);
    }
}

proof fn lemma_entry_index_result(es: Entries, id: Seq<char>, i: int)
    requires
        0 <= i,
    ensures
        entry_index(es, id, i) matches Some(k) ==> i <= k < es.len() && es[k].0 == id,
        entry_index(es, id, i) is None ==> forall|k: int| i <= k < es.len() ==> (#[trigger] es[k]).0 != id,
    decreases es.len() - i,
{
    if i < es.len() {
        lemma_entry_index_result(es, id, i + 1);
    }
}

fn picked_as_exec(gs: &Vec<(String, EngineGear)>, picked: &[String], id: &str) -> (r: bool)
    ensures
        r == picked_as(gs@, picked@, id@),
{
    let n = picked.len();
    for p in 0..n
        invariant
            n == picked@.len(),
            forall|q: int| 0 <= q < p ==> !(match find_gear(gs@, (#[trigger] picked@[q])@) {
                Some(j) => gs@[j].1.id@ == id@,
                None => false,
            }),
    {
        let found = match index_of_key_exec(gs, picked[p].as_str()) {
            Some(i) => Some(i),
            None => index_of_crate_exec(gs, picked[p].as_str()),
        };
        match found {
            Some(j) => {
                if str_eq(gs[j].1.id.as_str(), id) {
                    assert(match find_gear(gs@, picked@[p as int]@) {
                        Some(j) => gs@[j].1.id@ == id@,
                        None => false,
                    });
                    return true;
                }
            },
            None => {},
        }
    }
    false
}

/// The entry for `id`, added with no plugins where there is none yet.
fn add_entry_exec(ids: &mut Vec<String>, plugins: &mut Vec<Vec<String>>, id: &String, Ghost(es): Ghost<Entries>) -> (k: usize)
    requires
        entries_match(old(ids)@, old(plugins)@, es),
    ensures
        entries_match(final(ids)@, final(plugins)@, add_entry(es, id@)),
        k < final(ids)@.len(),
        entry_index(add_entry(es, id@), id@, 0) == Some(k as int),
{
    match entry_index_exec(ids, id.as_str()) {
        Some(k) => k,
        None => {
            proof {
                assert(entry_index(es, id@, 0) is None);
                lemma_entry_index_result(es, id@, 0);
            }
            let ghost ne = es.push((id@, Set::<Seq<char>>::empty()));
            ids.push(id.clone());
            plugins.push(Vec::new());
            let k = ids.len() - 1;
            proof {
                assert(str_views(plugins@[k as int]@) =~= Seq::<Seq<char>>::empty());
                assert(Seq::<Seq<char>>::empty().to_set() =~= Set::<Seq<char>>::empty());
                assert forall|j: int| 0 <= j < ne.len() implies (#[trigger] ne[j]).0 == ids@[j]@ by {}
                assert forall|j: int| 0 <= j < ne.len() implies strictly_sorted(str_views(#[trigger] plugins@[j]@)) by {}
                assert forall|j: int| 0 <= j < ne.len() implies str_views(#[trigger] plugins@[j]@).to_set() == ne[j].1 by {}
                assert forall|j: int| 0 <= j < k implies (#[trigger] ne[j]).0 != id@ by {
                    assert(ne[j] == es[j]);
                }
                lemma_entry_index_at(ne, id@, 0, k as int);
            }
            k
        },
    }
}

fn compose_step_exec(
    gs: &Vec<(String, EngineGear)>,
    picked: &[String],
    ids: &mut Vec<String>,
    plugins: &mut Vec<Vec<String>>,
    added_hosts: &mut Vec<(String, String)>,
    not_described: &mut Vec<String>,
    name: &String,
    Ghost(st): Ghost<ComposeState>,
)
    requires
        entries_match(old(ids)@, old(plugins)@, st.0),
        pair_strs(old(added_hosts)@) == st.1,
        str_views(old(not_described)@) == st.2,
    ensures
        entries_match(final(ids)@, final(plugins)@, compose_step(gs@, picked@, st, name@).0),
        pair_strs(final(added_hosts)@) == compose_step(gs@, picked@, st, name@).1,
        str_views(final(not_described)@) == compose_step(gs@, picked@, st, name@).2,
{
    let t = string_of(&trim_chars(&chars_of(name.as_str())));
    if t.as_str().is_empty() {
        return;
    }
    let found = match index_of_key_exec(gs, t.as_str()) {
        Some(i) => Some(i),
        None => index_of_crate_exec(gs, t.as_str()),
    };
    match found {
        None => {
            if !set_contains(not_described, t.as_str()) {
                let ghost before = str_views(not_described@);
                not_described.push(t);
                proof {
                    assert(str_views(not_described@) =~= before.push(t@));
                }
            }
        },
        Some(i) => {
            let gear = &gs[i].1;
            match host_of_exec(gs, gear) {
                Some(h) => {
                    let hid = gs[h].1.id.clone();
                    let known = entry_index_exec(ids, hid.as_str()).is_some();
                    proof {
                        assert(known == entry_index(st.0, hid@, 0) is Some);
                    }
                    if !known && !picked_as_exec(gs, picked, hid.as_str()) {
                        let ghost before = pair_strs(added_hosts@);
                        added_hosts.push((hid.clone(), gear.id.clone()));
                        proof {
                            assert(pair_strs(added_hosts@) =~= before.push((hid@, gear.id@)));
                        }
                    }
                    let ghost es1 = add_entry(st.0, hid@);
                    let k = add_entry_exec(ids, plugins, &hid, Ghost(st.0));
                    let mut list = plugins[k].clone();
                    proof {
                        assert(str_views(list@) == str_views(plugins@[k as int]@));
                    }
                    insert_sorted(&mut list, gear.id.clone());
                    let ghost before_plugins = plugins@;
                    plugins.set(k, list);
                    proof {
                        let ne = add_plugin(es1, hid@, gear.id@);
                        lemma_entry_index_result(es1, hid@, 0);
                        assert(ne == es1.update(k as int, (hid@, es1[k as int].1.insert(gear.id@))));
                        assert forall|j: int| 0 <= j < ne.len() implies (#[trigger] ne[j]).0 == ids@[j]@ by {}
                        assert forall|j: int| 0 <= j < ne.len() implies strictly_sorted(str_views(#[trigger] plugins@[j]@)) by {
                            if j != k {
                                assert(plugins@[j] == before_plugins[j]);
                            }
                        }
                        assert forall|j: int| 0 <= j < ne.len() implies str_views(#[trigger] plugins@[j]@).to_set() == ne[j].1 by {
                            if j != k {
                                assert(plugins@[j] == before_plugins[j]);
                            }
                        }
                    }
                },
                None => {
                    add_entry_exec(ids, plugins, &gear.id, Ghost(st.0));
                },
            }
        },
    }
}

/// The picked gears as `product.gdl` declarations: each gear once, in the
/// order first picked, a plugin under its host (brought in when nothing
/// picked names it), unknown picks reported once, and, for each host
/// written with no plugin, the corpus gears that could fill it.
pub fn compose(catalogue: &EngineCatalogue, picked: &[String]) -> (out: Composition)
    requires
        catalogue.wf(),
    ensures
        ({
            let st = compose_scan(catalogue.gears@, picked@, picked@);
            &&& out.gears@.len() == st.0.len()
            &&& forall|k: int| 0 <= k < st.0.len() ==> (#[trigger] out.gears@[k]).id@ == st.0[k].0
            &&& forall|k: int| 0 <= k < st.0.len() ==> strictly_sorted(str_views((#[trigger] out.gears@[k]).plugins@))
            &&& forall|k: int| 0 <= k < st.0.len() ==> str_views((#[trigger] out.gears@[k]).plugins@).to_set() == st.0[k].1
            &&& pair_strs(out.added_hosts@) == st.1
            &&& str_views(out.not_described@) == st.2
            &&& option_views(out.plugin_options@) == options_of(catalogue.gears@, st.0)
        }),
{
    let gs = &catalogue.gears;
    let mut ids: Vec<String> = Vec::new();
    let mut plugins: Vec<Vec<String>> = Vec::new();
    let mut added_hosts: Vec<(String, String)> = Vec::new();
    let mut not_described: Vec<String> = Vec::new();
    let np = picked.len();
    proof {
        assert(str_views(not_described@) =~= Seq::<Seq<char>>::empty());
        assert(pair_strs(added_hosts@) =~= Seq::<(Seq<char>, Seq<char>)>::empty());
    }
    for i in 0..np
        invariant
            np == picked@.len(),
            ({
                let st = compose_scan(gs@, picked@, picked@.take(i as int));
                &&& entries_match(ids@, plugins@, st.0)
                &&& pair_strs(added_hosts@) == st.1
                &&& str_views(not_described@) == st.2
            }),
    {
        proof {
            assert(picked@.take(i + 1).drop_last() == picked@.take(i as int));
            assert(picked@.take(i + 1).last() == picked@[i as int]);
        }
        let ghost st = compose_scan(gs@, picked@, picked@.take(i as int));
        compose_step_exec(gs, picked, &mut ids, &mut plugins, &mut added_hosts, &mut not_described, &picked[i], Ghost(st));
    }
    proof {
        assert(picked@.take(np as int) == picked@);
    }
    let ghost es = compose_scan(gs@, picked@, picked@).0;
    let ne = ids.len();
    let mut gears: Vec<GearUse> = Vec::new();
    let mut options: Vec<(String, Vec<String>)> = Vec::new();
    for k in 0..ne
        invariant
            ne == ids@.len(),
            entries_match(ids@, plugins@, es),
            gears@.len() == k,
            forall|j: int| 0 <= j < k ==> (#[trigger] gears@[j]).id@ == es[j].0,
            forall|j: int| 0 <= j < k ==> strictly_sorted(str_views((#[trigger] gears@[j]).plugins@)),
            forall|j: int| 0 <= j < k ==> str_views((#[trigger] gears@[j]).plugins@).to_set() == es[j].1,
            option_views(options@) == options_of(gs@, es.take(k as int)),
    {
        let ps = plugins[k].clone();
        proof {
            assert(str_views(ps@) == str_views(plugins@[k as int]@));
            assert(es.take(k + 1).drop_last() == es.take(k as int));
            assert(es.take(k + 1).last() == es[k as int]);
        }
        match index_of_key_exec(gs, ids[k].as_str()) {
            Some(h) => {
                let host = &gs[h].1;
                if host.extension_points.len() > 0 && ps.len() == 0 {
                    let imps = implementers_exec(gs, host);
                    let m = imps.len();
                    let mut avail: Vec<String> = Vec::new();
                    for q in 0..m
                        invariant
                            m == imps@.len(),
                            forall|j: int| 0 <= j < imps@.len() ==> imps@[j] < gs@.len(),
                            str_views(avail@) == usize_ints(imps@).take(q as int).map_values(|j: int| gs@[j].1.package.crate_name@),
                    {
                        let ghost before = str_views(avail@);
                        avail.push(gs[imps[q]].1.package.crate_name.clone());
                        proof {
                            assert(str_views(avail@) =~= before.push(gs@[imps@[q as int] as int].1.package.crate_name@));
                            assert(usize_ints(imps@).take(q + 1).map_values(|j: int| gs@[j].1.package.crate_name@) =~= usize_ints(imps@).take(
                                q as int,
                            ).map_values(|j: int| gs@[j].1.package.crate_name@).push(gs@[imps@[q as int] as int].1.package.crate_name@));
                        }
                    }
                    proof {
                        assert(usize_ints(imps@).take(m as int) == usize_ints(imps@));
                        assert(str_views(ps@).to_set() =~= Set::<Seq<char>>::empty()) by {
                            assert(str_views(ps@) =~= Seq::<Seq<char>>::empty());
                        }
                    }
                    if avail.len() > 0 {
                        let ghost before = option_views(options@);
                        let ghost av = str_views(avail@);
                        options.push((ids[k].clone(), avail));
                        proof {
                            assert(option_views(options@) =~= before.push((ids@[k as int]@, av)));
                        }
                    }
                } else {
                    proof {
                        if host.extension_points@.len() > 0 {
                            assert(str_views(ps@).len() > 0);
                            assert(str_views(ps@).to_set().contains(str_views(ps@)[0]));
                            assert(es[k as int].1 != Set::<Seq<char>>::empty());
                        }
                    }
                }
            },
            None => {},
        }
        gears.push(GearUse { id: ids[k].clone(), plugins: ps });
    }
    proof {
        assert(es.take(ne as int) == es);
    }
    Composition { gears, added_hosts, not_described, plugin_options: options }
}

// ── What the engine answered ──────────────────────────────────────────────

/// A string member, or `dflt` where there is none.
pub open spec fn str_or(j: Json, key: Seq<char>, dflt: Seq<char>) -> Seq<char> {
    match str_at(j, key) {
        Some(s) => s,
        None => dflt,
    }
}

/// The string at the end of a path of member keys.
pub open spec fn str_at_path(j: Json, keys: Seq<Seq<char>>) -> Option<Seq<char>> {
    match json_at(j, keys) {
        Some(x) => json_str(x),
        None => None,
    }
}

fn str_or_exec(j: &Json, key: &str, dflt: &str) -> (out: String)
    ensures
        out@ == str_or(*j, key@, dflt@),
{
    match j.str_at(key) {
        Some(s) => s.to_string(),
        None => dflt.to_string(),
    }
}

fn str_at_path_exec<'a>(j: &'a Json, keys: &[&str]) -> (out: Option<&'a str>)
    ensures
        match out {
            Some(s) => str_at_path(*j, key_views(keys@)) == Some(s@),
            None => str_at_path(*j, key_views(keys@)) is None,
        },
{
    match j.at(keys) {
        Some(x) => x.as_str(),
        None => None,
    }
}

/// The answer to a scaffold request: the `gear.gdl` the engine wrote, or why
/// there is none.
pub open spec fn answer_gdl_of(result: Json) -> Result<Seq<char>, Seq<char>> {
    match json_get(result, "error"@) {
        Some(e) => Err("the engine refused the scaffold: "@ + str_or(e, "message"@, "no message"@)),
        None => match str_at_path(result, seq!["result"@, "gear_gdl"@]) {
            Some(g) => Ok(g),
            None => Err("the engine's scaffold answer has no gear_gdl"@),
        },
    }
}

pub open spec fn result_view(r: Result<String, String>) -> Result<Seq<char>, Seq<char>> {
    match r {
        Ok(s) => Ok(s@),
        Err(e) => Err(e@),
    }
}

/// The `gear.gdl` out of the engine's answer to a scaffold request, or the
/// engine's refusal in words.
pub fn answer_gdl(result: &Json) -> (out: Result<String, String>)
    ensures
        result_view(out) == answer_gdl_of(*result),
{
    match result.get("error") {
        Some(e) => {
            let message = str_or_exec(e, "message", "no message");
            let mut t: Vec<char> = Vec::new();
            push_str(&mut t, "the engine refused the scaffold: ");
            push_str(&mut t, message.as_str());
            Err(string_of(&t))
        },
        None => {
            let path: [&str; 2] = ["result", "gear_gdl"];
            proof {
                assert(key_views(path@) =~= seq!["result"@, "gear_gdl"@]);
            }
            match str_at_path_exec(result, &path) {
                Some(g) => Ok(g.to_string()),
                None => Err("the engine's scaffold answer has no gear_gdl".to_string()),
            }
        },
    }
}

/// A path with its backslashes turned to slashes.
pub open spec fn forward_slashes(s: Seq<char>) -> Seq<char> {
    s.map_values(|c: char| if c == '\\' { '/' } else { c })
}

/// The corpus root as diagnostics are matched against it.
pub open spec fn corpus_root(corpus: Seq<char>) -> Seq<char> {
    trim_end_char(forward_slashes(corpus), '/')
}

/// What follows the last `/`; the whole text where there is none.
pub open spec fn after_last_slash(s: Seq<char>) -> Seq<char>
    decreases s.len(),
{
    if s.len() == 0 {
        s
    } else if s.last() == '/' {
        seq![]
    } else {
        after_last_slash(s.drop_last()).push(s.last())
    }
}

/// Where a diagnostic points, made relative: inside the corpus its corpus
/// path, elsewhere only its file name.
pub open spec fn diagnostic_file(uri: Seq<char>, root: Seq<char>) -> Seq<char> {
    let path = match strip_prefix(uri, "file://"@) {
        Some(p) => p,
        None => uri,
    };
    match strip_prefix(path, root) {
        Some(rel) => trim_start_char(rel, '/'),
        None => after_last_slash(path),
    }
}

/// A zero-based line as a one-based `u32`, where it fits.
pub open spec fn one_based(line: Option<u64>) -> Option<u32> {
    match line {
        Some(l) => if l + 1 <= u32::MAX {
            Some((l + 1) as u32)
        } else {
            None
        },
        None => None,
    }
}

pub open spec fn u64_at(j: Json, keys: Seq<Seq<char>>) -> Option<u64> {
    match json_at(j, keys) {
        Some(x) => json_u64(x),
        None => None,
    }
}

/// One diagnostic as the engine serialises it; `None` without a code.
pub open spec fn diagnostic_of(d: Json, root: Seq<char>) -> Option<EngineDiagnosticV> {
    match str_at(d, "code"@) {
        None => None,
        Some(code) => Some(
            EngineDiagnosticV {
                code: code,
                severity: str_or(d, "severity"@, "error"@),
                message: str_or(d, "message"@, seq![]),
                help: str_at(d, "help"@),
                file: match str_at_path(d, seq!["location"@, "uri"@]) {
                    Some(u) => Some(diagnostic_file(u, root)),
                    None => None,
                },
                line: one_based(u64_at(d, seq!["location"@, "range"@, "start"@, "line"@])),
            },
        ),
    }
}

pub open spec fn diagnostics_of(items: Seq<Json>, root: Seq<char>) -> Seq<EngineDiagnosticV>
    decreases items.len(),
{
    if items.len() == 0 {
        seq![]
    } else {
        let rest = diagnostics_of(items.drop_last(), root);
        match diagnostic_of(items.last(), root) {
            Some(d) => rest.push(d),
            None => rest,
        }
    }
}

pub open spec fn parse_diagnostics_of(v: Json, corpus: Seq<char>) -> Seq<EngineDiagnosticV> {
    match json_array(v) {
        Some(items) => diagnostics_of(items, corpus_root(corpus)),
        None => seq![],
    }
}

fn corpus_root_exec(corpus: &str) -> (out: Vec<char>)
    ensures
        out@ == corpus_root(corpus@),
{
    let v = chars_of(corpus);
    let n = v.len();
    let mut w: Vec<char> = Vec::new();
    for i in 0..n
        invariant
            n == v@.len(),
            w@ == forward_slashes(v@.take(i as int)),
    {
        let c = v[i];
        w.push(if c == '\\' { '/' } else { c });
        proof {
            assert(w@ =~= forward_slashes(v@.take(i + 1)));
        }
    }
    proof {
        assert(v@.take(n as int) == v@);
    }
    trim_end_char_exec(&w, '/')
}

fn after_last_slash_exec(v: &Vec<char>) -> (out: Vec<char>)
    ensures
        out@ == after_last_slash(v@),
{
    let n = v.len();
    let mut out: Vec<char> = Vec::new();
    for i in 0..n
        invariant
            n == v@.len(),
            out@ == after_last_slash(v@.take(i as int)),
    {
        proof {
            assert(v@.take(i + 1).drop_last() == v@.take(i as int));
            assert(v@.take(i + 1).last() == v@[i as int]);
        }
        if v[i] == '/' {
            out = Vec::new();
        } else {
            out.push(v[i]);
        }
    }
    proof {
        assert(v@.take(n as int) == v@);
    }
    out
}

fn diagnostic_file_exec(uri: &str, root: &Vec<char>) -> (out: String)
    ensures
        out@ == diagnostic_file(uri@, root@),
{
    let u = chars_of(uri);
    let path = match strip_prefix_exec(&u, "file://") {
        Some(p) => p,
        None => u,
    };
    let root_s = string_of(root);
    match strip_prefix_exec(&path, root_s.as_str()) {
        Some(rel) => string_of(&trim_start_char_exec(&rel, '/')),
        None => string_of(&after_last_slash_exec(&path)),
    }
}

fn diagnostic_exec(d: &Json, root: &Vec<char>) -> (out: Option<EngineDiagnostic>)
    ensures
        match out {
            Some(x) => diagnostic_of(*d, root@) == Some(x@),
            None => diagnostic_of(*d, root@) is None,
        },
{
    let code = match d.str_at("code") {
        Some(c) => c.to_string(),
        None => {
            return None;
        },
    };
    let uri_path: [&str; 2] = ["location", "uri"];
    let line_path: [&str; 4] = ["location", "range", "start", "line"];
    proof {
        assert(key_views(uri_path@) =~= seq!["location"@, "uri"@]);
        assert(key_views(line_path@) =~= seq!["location"@, "range"@, "start"@, "line"@]);
    }
    let file = match str_at_path_exec(d, &uri_path) {
        Some(u) => Some(diagnostic_file_exec(u, root)),
        None => None,
    };
    let line = match d.at(&line_path) {
        Some(x) => match x.as_u64() {
            Some(l) => if l < 4294967295u64 {
                Some((l + 1) as u32)
            } else {
                None
            },
            None => None,
        },
        None => None,
    };
    let help = match d.str_at("help") {
        Some(h) => Some(h.to_string()),
        None => None,
    };
    let severity = str_or_exec(d, "severity", "error");
    let message = str_or_exec(d, "message", "");
    proof {
        reveal_strlit("");
        assert(""@ =~= Seq::<char>::empty());
        assert(line == one_based(u64_at(*d, seq!["location"@, "range"@, "start"@, "line"@])));
        assert(opt_view(help) == str_at(*d, "help"@));
        assert(opt_view(file) == match str_at_path(*d, seq!["location"@, "uri"@]) {
            Some(u) => Some(diagnostic_file(u, root@)),
            None => None,
        });
    }
    Some(EngineDiagnostic { code, severity, message, help, file, line })
}

/// Diagnostics as the engine serialises them, with locations made relative:
/// a URI inside the corpus becomes its corpus path, the product file keeps
/// its name, anything else only its file name; lines become one-based. A
/// diagnostic without a code is dropped.
pub fn parse_diagnostics(v: &Json, corpus: &str) -> (out: Vec<EngineDiagnostic>)
    ensures
        diagnostic_views(out@) == parse_diagnostics_of(*v, corpus@),
{
    let mut out: Vec<EngineDiagnostic> = Vec::new();
    let items = match v.as_array() {
        Some(items) => items,
        None => {
            return out;
        },
    };
    let root = corpus_root_exec(corpus);
    let n = items.len();
    for i in 0..n
        invariant
            n == items@.len(),
            root@ == corpus_root(corpus@),
            diagnostic_views(out@) == diagnostics_of(items@.take(i as int), root@),
    {
        proof {
            assert(items@.take(i + 1).drop_last() == items@.take(i as int));
            assert(items@.take(i + 1).last() == items@[i as int]);
        }
        match diagnostic_exec(&items[i], &root) {
            Some(d) => {
                let ghost before = diagnostic_views(out@);
                out.push(d);
                proof {
                    assert(diagnostic_views(out@) =~= before.push(d@));
                }
            },
            None => {},
        }
    }
    proof {
        assert(items@.take(n as int) == items@);
    }
    out
}

/// An address an application listens on.
#[derive(Debug, Clone, PartialEq, Eq)]
pub struct EngineListen {
    pub name: String,
    pub gear: String,
    pub address: String,
}

/// A binary of the resolved product.
#[derive(Debug, Clone, PartialEq, Eq)]
pub struct EngineApplication {
    pub name: String,
    pub kind: String,
    pub anchor: Option<String>,
    pub gears: Vec<String>,
    pub replicas: u32,
    pub listens: Vec<EngineListen>,
}

/// A gear of the resolved product.
#[derive(Debug, Clone, PartialEq, Eq)]
pub struct EngineResolvedGear {
    pub id: String,
    pub crate_name: String,
    /// Why it is in the product: `selected`, `colocated with api-gateway`,
    /// `plugin of authn-resolver`.
    pub reasons: Vec<String>,
}

/// What the engine made of a product.
#[derive(Debug, Clone)]
pub struct Resolution {
    pub applications: Vec<EngineApplication>,
    pub gears: Vec<EngineResolvedGear>,
    pub diagnostics: Vec<EngineDiagnostic>,
}

pub struct ApplicationV {
    pub name: Seq<char>,
    pub kind: Seq<char>,
    pub anchor: Option<Seq<char>>,
    pub gears: Seq<Seq<char>>,
    pub replicas: u32,
    pub listens: Seq<(Seq<char>, Seq<char>, Seq<char>)>,
}

pub struct ResolvedGearV {
    pub id: Seq<char>,
    pub crate_name: Seq<char>,
    pub reasons: Seq<Seq<char>>,
}

pub struct ResolutionV {
    pub applications: Seq<ApplicationV>,
    pub gears: Seq<ResolvedGearV>,
    pub diagnostics: Seq<EngineDiagnosticV>,
}

impl View for EngineListen {
    type V = (Seq<char>, Seq<char>, Seq<char>);

    open spec fn view(&self) -> (Seq<char>, Seq<char>, Seq<char>) {
        (self.name@, self.gear@, self.address@)
    }
}

impl View for EngineApplication {
    type V = ApplicationV;

    open spec fn view(&self) -> ApplicationV {
        ApplicationV {
            name: self.name@,
            kind: self.kind@,
            anchor: opt_view(self.anchor),
            gears: str_views(self.gears@),
            replicas: self.replicas,
            listens: self.listens@.map_values(|l: EngineListen| l@),
        }
    }
}

impl View for EngineResolvedGear {
    type V = ResolvedGearV;

    open spec fn view(&self) -> ResolvedGearV {
        ResolvedGearV { id: self.id@, crate_name: self.crate_name@, reasons: str_views(self.reasons@) }
    }
}

impl View for Resolution {
    type V = ResolutionV;

    open spec fn view(&self) -> ResolutionV {
        ResolutionV {
            applications: self.applications@.map_values(|a: EngineApplication| a@),
            gears: self.gears@.map_values(|g: EngineResolvedGear| g@),
            diagnostics: diagnostic_views(self.diagnostics@),
        }
    }
}

/// Why a gear is in the product, in words.
pub open spec fn reason_of(r: Json) -> Seq<char> {
    let why = str_or(r, "reason"@, seq![]);
    if why == "colocated_by"@ {
        "colocated with "@ + str_or(r, "gear"@, seq![])
    } else if why == "plugin_of"@ {
        "plugin of "@ + str_or(r, "host"@, seq![])
    } else if why.len() == 0 {
        "selected"@
    } else {
        why.map_values(|c: char| if c == '_' { ' ' } else { c })
    }
}

/// The strings of a list, in order; nothing where it is not a list.
pub open spec fn strs_of(items: Seq<Json>) -> Seq<Seq<char>>
    decreases items.len(),
{
    if items.len() == 0 {
        seq![]
    } else {
        match json_str(items.last()) {
            Some(s) => strs_of(items.drop_last()).push(s),
            None => strs_of(items.drop_last()),
        }
    }
}

pub open spec fn array_at(j: Json, key: Seq<char>) -> Seq<Json> {
    match json_get(j, key) {
        Some(x) => match json_array(x) {
            Some(items) => items,
            None => seq![],
        },
        None => seq![],
    }
}

pub open spec fn listen_of(l: Json) -> (Seq<char>, Seq<char>, Seq<char>) {
    (str_or(l, "name"@, seq![]), str_or(l, "gear"@, seq![]), str_or(l, "address"@, seq![]))
}

pub open spec fn application_of(a: Json) -> ApplicationV {
    ApplicationV {
        name: str_or(a, "name"@, seq![]),
        kind: str_or(a, "kind"@, seq![]),
        anchor: str_at(a, "anchor"@),
        gears: strs_of(array_at(a, "gears"@)),
        replicas: match json_get(a, "replicas"@) {
            Some(x) => match json_u64(x) {
                Some(n) => if n <= u32::MAX {
                    n as u32
                } else {
                    1
                },
                None => 1,
            },
            None => 1,
        },
        listens: array_at(a, "listens"@).map_values(|l: Json| listen_of(l)),
    }
}

pub open spec fn resolved_gear_of(g: Json) -> ResolvedGearV {
    ResolvedGearV {
        id: str_or(g, "id"@, seq![]),
        crate_name: match str_at_path(g, seq!["package"@, "crate_name"@]) {
            Some(c) => c,
            None => seq![],
        },
        reasons: array_at(g, "selected_by"@).map_values(|r: Json| reason_of(r)),
    }
}

/// The engine's resolution: its applications, the gears it chose with why
/// (in the order the answer's object keeps them), and its diagnostics.
pub open spec fn resolution_of(v: Json, corpus: Seq<char>) -> ResolutionV {
    ResolutionV {
        applications: array_at(v, "applications"@).map_values(|a: Json| application_of(a)),
        gears: match json_get(v, "gears"@) {
            Some(Json::Object(m)) => m@.map_values(|p: (String, Json)| resolved_gear_of(p.1)),
            _ => seq![],
        },
        diagnostics: match json_get(v, "diagnostics"@) {
            Some(d) => parse_diagnostics_of(d, corpus),
            None => seq![],
        },
    }
}

fn reason(r: &Json) -> (out: String)
    ensures
        out@ == reason_of(*r),
{
    proof {
        reveal_strlit("");
    }
    let why = str_or_exec(r, "reason", "");
    proof {
        assert(""@ =~= Seq::<char>::empty());
        assert(why@ == str_or(*r, "reason"@, seq![]));
    }
    let mut t: Vec<char> = Vec::new();
    if str_eq(why.as_str(), "colocated_by") {
        push_str(&mut t, "colocated with ");
        let gear = str_or_exec(r, "gear", "");
        push_str(&mut t, gear.as_str());
        proof {
            assert(t@ =~= "colocated with "@ + str_or(*r, "gear"@, seq![]));
        }
    } else if str_eq(why.as_str(), "plugin_of") {
        push_str(&mut t, "plugin of ");
        let host = str_or_exec(r, "host", "");
        push_str(&mut t, host.as_str());
        proof {
            assert(t@ =~= "plugin of "@ + str_or(*r, "host"@, seq![]));
        }
    } else if why.as_str().is_empty() {
        push_str(&mut t, "selected");
        proof {
            assert(t@ =~= "selected"@);
        }
    } else {
        let w = chars_of(why.as_str());
        let n = w.len();
        for i in 0..n
            invariant
                n == w@.len(),
                t@ == w@.take(i as int).map_values(|c: char| if c == '_' { ' ' } else { c }),
        {
            let c = w[i];
            t.push(if c == '_' { ' ' } else { c });
            proof {
                assert(t@ =~= w@.take(i + 1).map_values(|c: char| if c == '_' { ' ' } else { c }));
            }
        }
        proof {
            assert(w@.take(n as int) == w@);
        }
    }
    string_of(&t)
}

fn strs_exec(items: &Vec<Json>) -> (out: Vec<String>)
    ensures
        str_views(out@) == strs_of(items@),
{
    let n = items.len();
    let mut out: Vec<String> = Vec::new();
    for i in 0..n
        invariant
            n == items@.len(),
            str_views(out@) == strs_of(items@.take(i as int)),
    {
        proof {
            assert(items@.take(i + 1).drop_last() == items@.take(i as int));
            assert(items@.take(i + 1).last() == items@[i as int]);
        }
        match items[i].as_str() {
            Some(s) => {
                let ghost before = str_views(out@);
                out.push(s.to_string());
                proof {
                    assert(str_views(out@) =~= before.push(s@));
                }
            },
            None => {},
        }
    }
    proof {
        assert(items@.take(n as int) == items@);
    }
    out
}

fn array_at_exec<'a>(j: &'a Json, key: &str) -> (out: Option<&'a Vec<Json>>)
    ensures
        match out {
            Some(a) => array_at(*j, key@) == a@,
            None => array_at(*j, key@) == Seq::<Json>::empty(),
        },
{
    match j.get(key) {
        Some(x) => x.as_array(),
        None => None,
    }
}

fn application_exec(a: &Json) -> (out: EngineApplication)
    ensures
        out@ == application_of(*a),
{
    proof {
        reveal_strlit("");
    }
    let gears = match array_at_exec(a, "gears") {
        Some(items) => strs_exec(items),
        None => Vec::new(),
    };
    let replicas: u32 = match a.get("replicas") {
        Some(x) => match x.as_u64() {
            Some(n) => if n <= 4294967295u64 {
                n as u32
            } else {
                1
            },
            None => 1,
        },
        None => 1,
    };
    let mut listens: Vec<EngineListen> = Vec::new();
    match array_at_exec(a, "listens") {
        Some(ls) => {
            let n = ls.len();
            for i in 0..n
                invariant
                    n == ls@.len(),
                    listens@.map_values(|l: EngineListen| l@) == ls@.take(i as int).map_values(|l: Json| listen_of(l)),
            {
                let item = EngineListen {
                    name: str_or_exec(&ls[i], "name", ""),
                    gear: str_or_exec(&ls[i], "gear", ""),
                    address: str_or_exec(&ls[i], "address", ""),
                };
                proof {
                    reveal_strlit("");
                    assert(""@ =~= Seq::<char>::empty());
                    assert(item@ == listen_of(ls@[i as int]));
                }
                let ghost before = listens@.map_values(|l: EngineListen| l@);
                listens.push(item);
                proof {
                    assert(listens@.map_values(|l: EngineListen| l@) =~= before.push(listen_of(ls@[i as int])));
                    assert(ls@.take(i + 1).map_values(|l: Json| listen_of(l)) =~= ls@.take(i as int).map_values(
                        |l: Json| listen_of(l),
                    ).push(listen_of(ls@[i as int])));
                }
            }
            proof {
                assert(ls@.take(n as int) == ls@);
            }
        },
        None => {},
    }
    let anchor = match a.str_at("anchor") {
        Some(s) => Some(s.to_string()),
        None => None,
    };
    let out = EngineApplication {
        name: str_or_exec(a, "name", ""),
        kind: str_or_exec(a, "kind", ""),
        anchor,
        gears,
        replicas,
        listens,
    };
    proof {
        assert(""@ =~= Seq::<char>::empty());
        assert(str_views(Seq::<String>::empty()) =~= Seq::<Seq<char>>::empty());
        assert(strs_of(Seq::<Json>::empty()) =~= Seq::<Seq<char>>::empty());
        assert(Seq::<Json>::empty().map_values(|l: Json| listen_of(l)) =~= Seq::<(Seq<char>, Seq<char>, Seq<char>)>::empty());
        let want = application_of(*a);
        assert(out@.name == want.name);
        assert(out@.kind == want.kind);
        assert(out@.anchor == want.anchor);
        assert(out@.gears == want.gears);
        assert(out@.replicas == want.replicas);
        assert(out@.listens == want.listens);
    }
    out
}

fn resolved_gear_exec(g: &Json) -> (out: EngineResolvedGear)
    ensures
        out@ == resolved_gear_of(*g),
{
    proof {
        reveal_strlit("");
    }
    let path: [&str; 2] = ["package", "crate_name"];
    proof {
        assert(key_views(path@) =~= seq!["package"@, "crate_name"@]);
    }
    let crate_name = match str_at_path_exec(g, &path) {
        Some(c) => c.to_string(),
        None => String::new(),
    };
    let mut reasons: Vec<String> = Vec::new();
    match array_at_exec(g, "selected_by") {
        Some(rs) => {
            let n = rs.len();
            for i in 0..n
                invariant
                    n == rs@.len(),
                    str_views(reasons@) == rs@.take(i as int).map_values(|r: Json| reason_of(r)),
            {
                let t = reason(&rs[i]);
                let ghost before = str_views(reasons@);
                reasons.push(t);
                proof {
                    assert(str_views(reasons@) =~= before.push(reason_of(rs@[i as int])));
                    assert(rs@.take(i + 1).map_values(|r: Json| reason_of(r)) =~= rs@.take(i as int).map_values(
                        |r: Json| reason_of(r),
                    ).push(reason_of(rs@[i as int])));
                }
            }
            proof {
                assert(rs@.take(n as int) == rs@);
            }
        },
        None => {},
    }
    let out = EngineResolvedGear { id: str_or_exec(g, "id", ""), crate_name, reasons };
    proof {
        assert(""@ =~= Seq::<char>::empty());
        assert(str_views(Seq::<String>::empty()) =~= Seq::<Seq<char>>::empty());
        assert(Seq::<Json>::empty().map_values(|r: Json| reason_of(r)) =~= Seq::<Seq<char>>::empty());
    }
    out
}

/// What the engine made of a product: its applications, the gears it chose
/// and why, and its diagnostics with their locations made relative.
pub fn parse_resolution(v: &Json, corpus: &str) -> (out: Resolution)
    ensures
        out@ == resolution_of(*v, corpus@),
{
    let mut applications: Vec<EngineApplication> = Vec::new();
    match array_at_exec(v, "applications") {
        Some(apps) => {
            let n = apps.len();
            for i in 0..n
                invariant
                    n == apps@.len(),
                    applications@.map_values(|a: EngineApplication| a@) == apps@.take(i as int).map_values(
                        |a: Json| application_of(a),
                    ),
            {
                let a = application_exec(&apps[i]);
                let ghost before = applications@.map_values(|a: EngineApplication| a@);
                applications.push(a);
                proof {
                    assert(applications@.map_values(|a: EngineApplication| a@) =~= before.push(application_of(apps@[i as int])));
                    assert(apps@.take(i + 1).map_values(|a: Json| application_of(a)) =~= apps@.take(i as int).map_values(
                        |a: Json| application_of(a),
                    ).push(application_of(apps@[i as int])));
                }
            }
            proof {
                assert(apps@.take(n as int) == apps@);
            }
        },
        None => {},
    }
    let mut gears: Vec<EngineResolvedGear> = Vec::new();
    match v.get("gears") {
        Some(Json::Object(m)) => {
            let n = m.len();
            for i in 0..n
                invariant
                    n == m@.len(),
                    gears@.map_values(|g: EngineResolvedGear| g@) == m@.take(i as int).map_values(
                        |p: (String, Json)| resolved_gear_of(p.1),
                    ),
            {
                let g = resolved_gear_exec(&m[i].1);
                let ghost before = gears@.map_values(|g: EngineResolvedGear| g@);
                gears.push(g);
                proof {
                    assert(gears@.map_values(|g: EngineResolvedGear| g@) =~= before.push(resolved_gear_of(m@[i as int].1)));
                    assert(m@.take(i + 1).map_values(|p: (String, Json)| resolved_gear_of(p.1)) =~= m@.take(
                        i as int,
                    ).map_values(|p: (String, Json)| resolved_gear_of(p.1)).push(resolved_gear_of(m@[i as int].1)));
                }
            }
            proof {
                assert(m@.take(n as int) == m@);
            }
        },
        _ => {},
    }
    let diagnostics = match v.get("diagnostics") {
        Some(d) => parse_diagnostics(d, corpus),
        None => Vec::new(),
    };
    let out = Resolution { applications, gears, diagnostics };
    proof {
        assert(Seq::<Json>::empty().map_values(|a: Json| application_of(a)) =~= Seq::<ApplicationV>::empty());
        assert(diagnostic_views(Seq::<EngineDiagnostic>::empty()) =~= Seq::<EngineDiagnosticV>::empty());
        assert(out@.applications == resolution_of(*v, corpus@).applications);
        assert(out@.gears == resolution_of(*v, corpus@).gears);
        assert(out@.diagnostics == resolution_of(*v, corpus@).diagnostics);
    }
    out
}

// ── Hosts a new plugin can fill ───────────────────────────────────────────

/// A host a new plugin can fill, and the SDK its extension point is in.
#[derive(Debug, Clone, PartialEq, Eq)]
pub struct HostPoint {
    pub host_id: String,
    pub host_crate: String,
    pub sdk_crate: String,
    pub sdk_lib: String,
    /// Relative to the corpus root.
    pub sdk_path: String,
    /// Whether the host can run in a product from this corpus.
    pub runs: bool,
}

pub struct HostPointV {
    pub host_id: Seq<char>,
    pub host_crate: Seq<char>,
    pub sdk_crate: Seq<char>,
    pub sdk_lib: Seq<char>,
    pub sdk_path: Seq<char>,
    pub runs: bool,
}

impl View for HostPoint {
    type V = HostPointV;

    open spec fn view(&self) -> HostPointV {
        HostPointV {
            host_id: self.host_id@,
            host_crate: self.host_crate@,
            sdk_crate: self.sdk_crate@,
            sdk_lib: self.sdk_lib@,
            sdk_path: self.sdk_path@,
            runs: self.runs,
        }
    }
}

pub open spec fn point_views(v: Seq<HostPoint>) -> Seq<HostPointV> {
    v.map_values(|p: HostPoint| p@)
}

/// The extension points of `g` whose SDK can be located: its library and
/// its path are both known.
pub open spec fn points_of_gear(g: EngineGear, runs: bool, ps: Seq<EnginePoint>) -> Seq<HostPointV>
    decreases ps.len(),
{
    if ps.len() == 0 {
        seq![]
    } else {
        let rest = points_of_gear(g, runs, ps.drop_last());
        let p = ps.last();
        match (p.sdk.lib_ident, p.sdk.path) {
            (Some(lib), Some(path)) => rest.push(
                HostPointV {
                    host_id: g.id@,
                    host_crate: g.package.crate_name@,
                    sdk_crate: p.sdk.crate_name@,
                    sdk_lib: lib@,
                    sdk_path: path@,
                    runs: runs,
                },
            ),
            _ => rest,
        }
    }
}

/// The locatable extension points of the first `n` gears, in key order.
pub open spec fn all_points(gs: Gears, d: DeadMap, n: int) -> Seq<HostPointV>
    decreases n,
{
    if n <= 0 || n > gs.len() {
        seq![]
    } else {
        let g = gs[n - 1].1;
        all_points(gs, d, n - 1) + points_of_gear(g, dead_get(d, g.id@) is None, g.extension_points@)
    }
}

/// The order offers are shown in: hosts that can run first, then by crate.
pub open spec fn point_before(a: HostPointV, b: HostPointV) -> bool {
    (a.runs && !b.runs) || (a.runs == b.runs && seq_lt(a.host_crate, b.host_crate))
}

/// `x` placed after every entry it does not sort before.
pub open spec fn insert_point(s: Seq<HostPointV>, x: HostPointV) -> Seq<HostPointV>
    decreases s.len(),
{
    if s.len() == 0 {
        seq![x]
    } else if point_before(x, s.last()) {
        insert_point(s.drop_last(), x).push(s.last())
    } else {
        s.push(x)
    }
}

/// A stable sort by [`point_before`].
pub open spec fn sorted_points(s: Seq<HostPointV>) -> Seq<HostPointV>
    decreases s.len(),
{
    if s.len() == 0 {
        seq![]
    } else {
        insert_point(sorted_points(s.drop_last()), s.last())
    }
}

pub open spec fn host_points_of(gs: Gears) -> Seq<HostPointV> {
    sorted_points(all_points(gs, dead_map(gs), gs.len() as int))
}

proof fn lemma_insert_point(s: Seq<HostPointV>, x: HostPointV, j: int)
    requires
        0 <= j <= s.len(),
        forall|t: int| j <= t < s.len() ==> point_before(x, #[trigger] s[t]),
        j > 0 ==> !point_before(x, s[j - 1]),
    ensures
        insert_point(s, x) == s.insert(j, x),
    decreases s.len(),
{
    if s.len() == 0 {
        assert(s.insert(j, x) =~= seq![x]);
    } else if j == s.len() {
        assert(s.insert(j, x) =~= s.push(x));
    } else {
        assert(point_before(x, s[s.len() - 1]));
        let d = s.drop_last();
        assert forall|t: int| j <= t < d.len() implies point_before(x, #[trigger] d[t]) by {
            assert(d[t] == s[t]);
        }
        if j > 0 {
            assert(d[j - 1] == s[j - 1]);
        }
        lemma_insert_point(d, x, j);
        assert(d.insert(j, x).push(s.last()) =~= s.insert(j, x));
    }
}

fn point_before_exec(a: &HostPoint, b: &HostPoint) -> (r: bool)
    ensures
        r == point_before(a@, b@),
{
    (a.runs && !b.runs) || (a.runs == b.runs && lex_lt(&chars_of(a.host_crate.as_str()), &chars_of(b.host_crate.as_str())))
}

fn points_of_gear_exec(g: &EngineGear, runs: bool, out: &mut Vec<HostPoint>)
    ensures
        point_views(final(out)@) == point_views(old(out)@) + points_of_gear(*g, runs, g.extension_points@),
{
    let ghost start = point_views(out@);
    let n = g.extension_points.len();
    proof {
        assert(g.extension_points@.take(0) =~= Seq::<EnginePoint>::empty());
        assert(start + points_of_gear(*g, runs, Seq::<EnginePoint>::empty()) =~= start);
    }
    for i in 0..n
        invariant
            n == g.extension_points@.len(),
            point_views(out@) == start + points_of_gear(*g, runs, g.extension_points@.take(i as int)),
    {
        let ps = &g.extension_points;
        proof {
            assert(ps@.take(i + 1).drop_last() == ps@.take(i as int));
            assert(ps@.take(i + 1).last() == ps@[i as int]);
        }
        let p = &ps[i];
        match (&p.sdk.lib_ident, &p.sdk.path) {
            (Some(lib), Some(path)) => {
                let item = HostPoint {
                    host_id: g.id.clone(),
                    host_crate: g.package.crate_name.clone(),
                    sdk_crate: p.sdk.crate_name.clone(),
                    sdk_lib: lib.clone(),
                    sdk_path: path.clone(),
                    runs,
                };
                let ghost before = point_views(out@);
                out.push(item);
                proof {
                    assert(point_views(out@) =~= before.push(item@));
                }
            },
            _ => {},
        }
    }
    proof {
        assert(g.extension_points@.take(n as int) == g.extension_points@);
    }
}

/// Every host a new plugin can fill, with the SDK its extension point is in;
/// an extension point whose SDK cannot be located is left out. Hosts that
/// can run come first, then by crate name.
pub fn host_points(catalogue: &EngineCatalogue) -> (out: Vec<HostPoint>)
    requires
        catalogue.wf(),
    ensures
        point_views(out@) == host_points_of(catalogue.gears@),
{
    let dead = catalogue.dead();
    let gs = &catalogue.gears;
    let ghost gv = gs@;
    let n = gs.len();
    let mut all: Vec<HostPoint> = Vec::new();
    for k in 0..n
        invariant
            n == gv.len(),
            gv == gs@,
            dead_views(dead@) == dead_map(gv),
            point_views(all@) == all_points(gv, dead_map(gv), k as int),
    {
        let g = &gs[k].1;
        let runs = match dead_get_exec(&dead, g.id.as_str()) {
            Some(_) => false,
            None => true,
        };
        points_of_gear_exec(g, runs, &mut all);
    }
    let mut out: Vec<HostPoint> = Vec::new();
    let m = all.len();
    let ghost av = point_views(all@);
    proof {
        assert(av.take(0) =~= Seq::<HostPointV>::empty());
    }
    for i in 0..m
        invariant
            m == all@.len(),
            av == point_views(all@),
            av.len() == m,
            point_views(out@) == sorted_points(av.take(i as int)),
    {
        proof {
            assert(av.take(i + 1).drop_last() == av.take(i as int));
            assert(av.take(i + 1).last() == av[i as int]);
        }
        let a = &all[i];
        let item = HostPoint {
            host_id: a.host_id.clone(),
            host_crate: a.host_crate.clone(),
            sdk_crate: a.sdk_crate.clone(),
            sdk_lib: a.sdk_lib.clone(),
            sdk_path: a.sdk_path.clone(),
            runs: a.runs,
        };
        proof {
            assert(item@ == av[i as int]);
        }
        let mut j = out.len();
        let ghost ov = point_views(out@);
        while j > 0 && point_before_exec(&item, &out[j - 1])
            invariant
                j <= out@.len(),
                ov == point_views(out@),
                ov.len() == out@.len(),
                forall|t: int| j <= t < ov.len() ==> point_before(item@, #[trigger] ov[t]),
            decreases j,
        {
            j = j - 1;
        }
        proof {
            if j > 0 {
                assert(!point_before(item@, ov[j - 1]));
            }
            lemma_insert_point(ov, item@, j as int);
        }
        out.insert(j, item);
        proof {
            assert(point_views(out@) =~= ov.insert(j as int, item@));
        }
    }
    proof {
        assert(av.take(m as int) == av);
    }
    out
}

// ── Facts: what the engine knows, as component-profile fields ─────────────

/// A list as a profile field shows it: joined, or a dash when empty.
pub open spec fn list_text(items: Seq<Seq<char>>) -> Seq<char> {
    if items.len() == 0 {
        "—"@
    } else {
        join_str(items, ", "@)
    }
}

/// What a gear is in a composition: a host and its plugins, a plugin and
/// its host, or neither.
pub open spec fn role_of(gs: Gears, g: EngineGear) -> Seq<char> {
    if g.extension_points@.len() > 0 {
        let plugins = implementers(gs, g).map_values(|i: int| gs[i].1.package.crate_name@);
        if plugins.len() == 0 {
            "host; no plugin in the corpus fills it"@
        } else {
            "host; plugins: "@ + join_str(plugins, ", "@)
        }
    } else if g.fills is Some {
        match host_of(gs, g) {
            Some(h) => "plugin of "@ + gs[h].1.package.crate_name@,
            None => "plugin; no gear in the corpus hosts it"@,
        }
    } else {
        "—"@
    }
}

/// A field with a grade.
pub open spec fn lamp_of(v: Seq<char>, s: Seq<char>) -> JsonV {
    field_of(seq![("v"@, sv(v)), ("b"@, sv(v)), ("s"@, sv(s))])
}

/// Whether the gear can run in a product from this corpus, and if not why.
pub open spec fn runs_of(gs: Gears, d: DeadMap, g: EngineGear) -> JsonV {
    match dead_get(d, g.id@) {
        None => lamp_of("yes"@, "good"@),
        Some(why) => lamp_of("no — "@ + dead_reason(gs, why), "bad"@),
    }
}

/// The profile fields the engine's description of `g` answers.
pub open spec fn facts_of(gs: Gears, d: DeadMap, g: EngineGear, corpus: Seq<char>) -> JsonV {
    field_of(
        seq![
            ("gdl"@, lamp_of("yes"@, "good"@)),
            ("gdl_id"@, shown_field(g.id@)),
            ("gdl_caps"@, shown_field(list_text(str_views(g.runtime_caps@)))),
            ("gdl_deps"@, shown_field(list_text(g.colocated_deps@.map_values(|s: String| crate_of(gs, s@))))),
            ("gdl_role"@, shown_field(role_of(gs, g))),
            ("gdl_config"@, shown_field(list_text(unset_config(g)))),
            ("gdl_runs"@, runs_of(gs, d, g)),
            ("gdl_corpus"@, shown_field(corpus)),
        ],
    )
}

/// The facts of the first `n` gears, keyed by crate name.
pub open spec fn facts_map(gs: Gears, d: DeadMap, corpus: Seq<char>, n: int) -> VMap
    decreases n,
{
    if n <= 0 || n > gs.len() {
        seq![]
    } else {
        let g = gs[n - 1].1;
        vmap_put(facts_map(gs, d, corpus, n - 1), g.package.crate_name@, facts_of(gs, d, g, corpus))
    }
}

fn list_text_exec(items: &Vec<String>) -> (out: String)
    ensures
        out@ == list_text(str_views(items@)),
{
    if items.len() == 0 {
        "—".to_string()
    } else {
        let out = join_strings(items, ", ");
        proof {
            assert(items@.map_values(|s: String| s@) == str_views(items@));
        }
        out
    }
}

fn lamp(v: &str, s: &str) -> (out: Json)
    ensures
        json_view(out) == lamp_of(v@, s@),
{
    let pairs: Vec<(&'static str, Json)> = vec![
        ("v", Json::Str(v.to_string())),
        ("b", Json::Str(v.to_string())),
        ("s", Json::Str(s.to_string())),
    ];
    proof {
        assert(pairs@.map_values(|p: (&'static str, Json)| (p.0@, json_view(p.1))) =~= seq![
            ("v"@, sv(v@)),
            ("b"@, sv(v@)),
            ("s"@, sv(s@)),
        ]);
    }
    field(&pairs)
}

fn role_exec(gs: &Vec<(String, EngineGear)>, g: &EngineGear) -> (out: String)
    ensures
        out@ == role_of(gs@, *g),
{
    if g.extension_points.len() > 0 {
        let idx = implementers_exec(gs, g);
        let mut plugins: Vec<String> = Vec::new();
        let n = idx.len();
        for i in 0..n
            invariant
                n == idx@.len(),
                forall|k: int| 0 <= k < idx@.len() ==> idx@[k] < gs@.len(),
                str_views(plugins@) == usize_ints(idx@).take(i as int).map_values(
                    |t: int| gs@[t].1.package.crate_name@,
                ),
        {
            let ghost before = str_views(plugins@);
            plugins.push(gs[idx[i]].1.package.crate_name.clone());
            proof {
                assert(str_views(plugins@) =~= before.push(gs@[idx@[i as int] as int].1.package.crate_name@));
                assert(usize_ints(idx@).take(i + 1).map_values(|t: int| gs@[t].1.package.crate_name@) =~= usize_ints(
                    idx@,
                ).take(i as int).map_values(|t: int| gs@[t].1.package.crate_name@).push(
                    gs@[idx@[i as int] as int].1.package.crate_name@,
                ));
            }
        }
        proof {
            assert(usize_ints(idx@).take(n as int) == usize_ints(idx@));
            assert(plugins@.map_values(|s: String| s@) == str_views(plugins@));
        }
        if n == 0 {
            "host; no plugin in the corpus fills it".to_string()
        } else {
            let mut t: Vec<char> = Vec::new();
            push_str(&mut t, "host; plugins: ");
            let j = join_strings(&plugins, ", ");
            push_str(&mut t, j.as_str());
            proof {
                assert(t@ =~= "host; plugins: "@ + j@);
            }
            string_of(&t)
        }
    } else if g.fills.is_some() {
        match host_of_exec(gs, g) {
            Some(h) => {
                let mut t: Vec<char> = Vec::new();
                push_str(&mut t, "plugin of ");
                push_str(&mut t, gs[h].1.package.crate_name.as_str());
                proof {
                    assert(t@ =~= "plugin of "@ + gs@[h as int].1.package.crate_name@);
                }
                string_of(&t)
            },
            None => "plugin; no gear in the corpus hosts it".to_string(),
        }
    } else {
        "—".to_string()
    }
}

fn facts_exec(gs: &Vec<(String, EngineGear)>, dead: &Vec<(String, Dead)>, g: &EngineGear, corpus: &str) -> (out: Json)
    ensures
        json_view(out) == facts_of(gs@, dead_views(dead@), *g, corpus@),
{
    let runs = match dead_get_exec(dead, g.id.as_str()) {
        None => lamp("yes", "good"),
        Some(k) => {
            let why = dead_reason_exec(gs, &dead[k].1);
            let mut t: Vec<char> = Vec::new();
            push_str(&mut t, "no — ");
            push_str(&mut t, why.as_str());
            proof {
                assert(t@ =~= "no — "@ + why@);
            }
            let said = string_of(&t);
            lamp(said.as_str(), "bad")
        },
    };
    let mut deps: Vec<String> = Vec::new();
    let nd = g.colocated_deps.len();
    for i in 0..nd
        invariant
            nd == g.colocated_deps@.len(),
            str_views(deps@) == g.colocated_deps@.take(i as int).map_values(|s: String| crate_of(gs@, s@)),
    {
        let c = crate_of_exec(gs, g.colocated_deps[i].as_str());
        let ghost before = str_views(deps@);
        deps.push(c);
        proof {
            assert(str_views(deps@) =~= before.push(crate_of(gs@, g.colocated_deps@[i as int]@)));
            assert(g.colocated_deps@.take(i + 1).map_values(|s: String| crate_of(gs@, s@)) =~= g.colocated_deps@.take(
                i as int,
            ).map_values(|s: String| crate_of(gs@, s@)).push(crate_of(gs@, g.colocated_deps@[i as int]@)));
        }
    }
    proof {
        assert(g.colocated_deps@.take(nd as int) == g.colocated_deps@);
    }
    let unset = unset_config_exec(g);
    proof {
        assert(unset@.map_values(|s: String| s@) == str_views(unset@));
    }
    let caps = list_text_exec(&g.runtime_caps);
    let deps_t = list_text_exec(&deps);
    let role = role_exec(gs, g);
    let config = list_text_exec(&unset);
    let pairs: Vec<(&'static str, Json)> = vec![
        ("gdl", lamp("yes", "good")),
        ("gdl_id", shown(g.id.as_str())),
        ("gdl_caps", shown(caps.as_str())),
        ("gdl_deps", shown(deps_t.as_str())),
        ("gdl_role", shown(role.as_str())),
        ("gdl_config", shown(config.as_str())),
        ("gdl_runs", runs),
        ("gdl_corpus", shown(corpus)),
    ];
    proof {
        let want = seq![
            ("gdl"@, lamp_of("yes"@, "good"@)),
            ("gdl_id"@, shown_field(g.id@)),
            ("gdl_caps"@, shown_field(list_text(str_views(g.runtime_caps@)))),
            ("gdl_deps"@, shown_field(list_text(g.colocated_deps@.map_values(|s: String| crate_of(gs@, s@))))),
            ("gdl_role"@, shown_field(role_of(gs@, *g))),
            ("gdl_config"@, shown_field(list_text(unset_config(*g)))),
            ("gdl_runs"@, runs_of(gs@, dead_views(dead@), *g)),
            ("gdl_corpus"@, shown_field(corpus@)),
        ];
        assert(pairs@.map_values(|p: (&'static str, Json)| (p.0@, json_view(p.1))) =~= want);
    }
    field(&pairs)
}

/// Profile fields for every gear the corpus describes, keyed by crate name:
/// whether it has a description, its id, capabilities, colocated gears (by
/// crate), its role among hosts and plugins, the configuration nobody has
/// given, whether it can run (and if not why), and the corpus it came from.
pub fn gear_facts(catalogue: &EngineCatalogue, corpus: &str) -> (out: Vec<(String, Json)>)
    requires
        catalogue.wf(),
    ensures
        member_views(out@) == facts_map(catalogue.gears@, dead_map(catalogue.gears@), corpus@, catalogue.gears@.len() as int),
{
    let dead = catalogue.dead();
    let gs = &catalogue.gears;
    let ghost gv = gs@;
    let n = gs.len();
    let mut out: Vec<(String, Json)> = Vec::new();
    for k in 0..n
        invariant
            n == gv.len(),
            gv == gs@,
            dead_views(dead@) == dead_map(gv),
            member_views(out@) == facts_map(gv, dead_map(gv), corpus@, k as int),
    {
        let g = &gs[k].1;
        let facts = facts_exec(gs, &dead, g, corpus);
        map_put(&mut out, g.package.crate_name.clone(), facts);
    }
    out
}

// ── the dead gears are settled ────────────────────────────────────────────

/// How many of the first `n` gears the map does not hold dead.
pub open spec fn alive_count(gs: Gears, d: DeadMap, n: int) -> nat
    decreases n,
{
    if n <= 0 || n > gs.len() {
        0
    } else {
        alive_count(gs, d, n - 1) + if dead_get(d, gs[n - 1].1.id@) is None {
            1nat
        } else {
            0nat
        }
    }
}

proof fn lemma_alive_count_bound(gs: Gears, d: DeadMap, n: int)
    requires
        0 <= n <= gs.len(),
    ensures
        alive_count(gs, d, n) <= n,
    decreases n,
{
    if n > 0 {
        lemma_alive_count_bound(gs, d, n - 1);
    }
}

proof fn lemma_alive_count_drops(gs: Gears, d1: DeadMap, d2: DeadMap, n: int, k0: int)
    requires
        0 <= k0 < n <= gs.len(),
        forall|k: int| 0 <= k < n && dead_get(d1, gs[k].1.id@) is Some ==> dead_get(d2, #[trigger] gs[k].1.id@) is Some,
        dead_get(d1, gs[k0].1.id@) is None,
        dead_get(d2, gs[k0].1.id@) is Some,
    ensures
        alive_count(gs, d2, n) < alive_count(gs, d1, n),
    decreases n,
{
    if n - 1 == k0 {
        lemma_alive_count_le(gs, d1, d2, n - 1);
    } else {
        lemma_alive_count_drops(gs, d1, d2, n - 1, k0);
        assert(dead_get(d1, gs[n - 1].1.id@) is Some ==> dead_get(d2, gs[n - 1].1.id@) is Some);
    }
}

proof fn lemma_alive_count_le(gs: Gears, d1: DeadMap, d2: DeadMap, n: int)
    requires
        0 <= n <= gs.len(),
        forall|k: int| 0 <= k < n && dead_get(d1, gs[k].1.id@) is Some ==> dead_get(d2, #[trigger] gs[k].1.id@) is Some,
    ensures
        alive_count(gs, d2, n) <= alive_count(gs, d1, n),
    decreases n,
{
    if n > 0 {
        lemma_alive_count_le(gs, d1, d2, n - 1);
        assert(dead_get(d1, gs[n - 1].1.id@) is Some ==> dead_get(d2, gs[n - 1].1.id@) is Some);
    }
}

/// A round only ever adds: what was dead stays dead, and a round that
/// reports a change found some gear newly dead; one that reports none
/// changed nothing.
proof fn lemma_round(gs: Gears, d: DeadMap, m: int)
    requires
        m <= gs.len(),
    ensures
        forall|id: Seq<char>| dead_get(d, id) is Some ==> #[trigger] dead_get(dead_round(gs, d, m).0, id) is Some,
        !dead_round(gs, d, m).1 ==> dead_round(gs, d, m).0 == d,
        dead_round(gs, d, m).1 ==> exists|k: int|
            0 <= k < m && dead_get(d, gs[k].1.id@) is None && #[trigger] dead_get(dead_round(gs, d, m).0, gs[k].1.id@) is Some,
    decreases m,
{
    if m > 0 {
        lemma_round(gs, d, m - 1);
        let r = dead_round(gs, d, m - 1);
        let g = gs[m - 1].1;
        let s = dead_step(gs, r.0, g);
        assert(dead_round(gs, d, m) == (s.0, r.1 || s.1));
        // a step pushes at most the entry for `g`, and only when `g` was alive
        assert(forall|id: Seq<char>| dead_get(r.0, id) is Some ==> #[trigger] dead_get(s.0, id) is Some) by {
            assert forall|id: Seq<char>| dead_get(r.0, id) is Some implies #[trigger] dead_get(s.0, id) is Some by {
                if s.1 {
                    assert(s.0.drop_last() == r.0);
                }
            }
        }
        if s.1 {
            assert(s.0.drop_last() == r.0);
            assert(s.0.last().0 == g.id@);
            assert(dead_get(s.0, g.id@) is Some);
            assert(dead_get(r.0, g.id@) is None);
            if dead_get(d, g.id@) is Some {
                assert(dead_get(r.0, g.id@) is Some);
            }
        } else {
            assert(s.0 == r.0);
            if r.1 {
                let k = choose|k: int|
                    0 <= k < m - 1 && dead_get(d, gs[k].1.id@) is None && #[trigger] dead_get(r.0, gs[k].1.id@) is Some;
                assert(dead_get(s.0, gs[k].1.id@) is Some);
            }
        }
    }
}

proof fn lemma_rounds_settle(gs: Gears, d: DeadMap, fuel: nat)
    requires
        alive_count(gs, d, gs.len() as int) < fuel,
    ensures
        !dead_round(gs, dead_rounds(gs, d, fuel), gs.len() as int).1,
    decreases fuel,
{
    let n = gs.len() as int;
    let r = dead_round(gs, d, n);
    lemma_round(gs, d, n);
    if !r.1 {
        assert(dead_rounds(gs, d, fuel) == r.0);
        assert(r.0 == d);
    } else {
        let k0 = choose|k: int| 0 <= k < n && dead_get(d, gs[k].1.id@) is None && #[trigger] dead_get(r.0, gs[k].1.id@) is Some;
        lemma_alive_count_drops(gs, d, r.0, n, k0);
        lemma_rounds_settle(gs, r.0, (fuel - 1) as nat);
    }
}

/// The dead gears are settled: another round over the catalogue, with the
/// dead gears as found, finds no gear newly dead. (So the rounds that find
/// them never run out before a round finds nothing.)
pub proof fn law_dead_gears_are_settled(gs: Gears)
    ensures
        !dead_round(gs, dead_map(gs), gs.len() as int).1,
{
    let d0 = initial_dead(gs, gs.len() as int);
    lemma_alive_count_bound(gs, d0, gs.len() as int);
    lemma_rounds_settle(gs, d0, (gs.len() + 1) as nat);
}

proof fn lemma_quiet_round_steps(gs: Gears, d: DeadMap, m: int, j: int)
    requires
        m <= gs.len(),
        0 <= j < m,
        !dead_round(gs, d, m).1,
    ensures
        !dead_step(gs, d, gs[j].1).1,
    decreases m,
{
    lemma_round(gs, d, m - 1);
    if j < m - 1 {
        lemma_quiet_round_steps(gs, d, m - 1, j);
    }
}

/// A gear that can run has what it needs: nothing it must share a binary
/// with is dead, nor is its host, and a host has a plugin that can run.
pub proof fn law_a_living_gear_has_what_it_needs(gs: Gears, k: int)
    requires
        0 <= k < gs.len(),
        dead_get(dead_map(gs), gs[k].1.id@) is None,
    ensures
        first_dead(dead_map(gs), gs[k].1.colocated_deps@, 0) is None,
        host_of(gs, gs[k].1) matches Some(h) ==> dead_get(dead_map(gs), gs[h].1.id@) is None,
        gs[k].1.extension_points@.len() > 0 ==> !all_plugins_dead(gs, dead_map(gs), gs[k].1),
{
    law_dead_gears_are_settled(gs);
    lemma_quiet_round_steps(gs, dead_map(gs), gs.len() as int, k);
}

/// The runtime's own priority of a plugin: its `default_priority`, a plugin
/// without one counting as the largest.
pub open spec fn runtime_priority(g: EngineGear) -> int {
    match g.fills {
        Some(f) => match f.default_priority {
            Some(p) => p as int,
            None => i64::MAX as int,
        },
        None => i64::MAX as int,
    }
}

proof fn lemma_alive_of(gs: Gears, d: DeadMap, cands: Seq<int>)
    ensures
        forall|x: int| #[trigger] alive_of(gs, d, cands).contains(x) <==> (cands.contains(x) && dead_get(d, gs[x].1.id@) is None),
    decreases cands.len(),
{
    if cands.len() > 0 {
        lemma_alive_of(gs, d, cands.drop_last());
        let rest = alive_of(gs, d, cands.drop_last());
        assert forall|x: int| #[trigger] alive_of(gs, d, cands).contains(x) <==> (cands.contains(x) && dead_get(d, gs[x].1.id@) is None) by {
            if alive_of(gs, d, cands).contains(x) {
                let i = choose|i: int| 0 <= i < alive_of(gs, d, cands).len() && alive_of(gs, d, cands)[i] == x;
                if i < rest.len() {
                    assert(rest.contains(x));
                    let j = choose|j: int| 0 <= j < cands.drop_last().len() && cands.drop_last()[j] == x;
                    assert(cands[j] == x);
                } else {
                    assert(cands[cands.len() - 1] == x);
                }
            }
            if cands.contains(x) && dead_get(d, gs[x].1.id@) is None {
                let j = choose|j: int| 0 <= j < cands.len() && cands[j] == x;
                if j < cands.len() - 1 {
                    assert(cands.drop_last()[j] == x);
                    assert(rest.contains(x));
                    let i = choose|i: int| 0 <= i < rest.len() && rest[i] == x;
                    assert(alive_of(gs, d, cands)[i] == x);
                } else {
                    assert(alive_of(gs, d, cands) == rest.push(x));
                    assert(alive_of(gs, d, cands)[rest.len() as int] == x);
                }
            }
        }
    }
}

proof fn lemma_best_of(gs: Gears, cands: Seq<int>)
    ensures
        match best_of(gs, cands) {
            Some(b) => cands.contains(b) && (forall|x: int| #[trigger] cands.contains(x) ==> runtime_priority(gs[b].1)
                <= runtime_priority(gs[x].1) && (runtime_priority(gs[x].1) == runtime_priority(gs[b].1) && contains(
                gs[x].1.id@,
                "static"@,
            ) ==> contains(gs[b].1.id@, "static"@)) && (runtime_priority(gs[x].1) == runtime_priority(gs[b].1)
                && contains(gs[x].1.id@, "static"@) == contains(gs[b].1.id@, "static"@) ==> !seq_lt(
                gs[x].1.id@,
                gs[b].1.id@,
            ))),
            None => cands.len() == 0,
        },
    decreases cands.len(),
{
    if cands.len() > 0 {
        let front = cands.drop_last();
        lemma_best_of(gs, front);
        let c = cands.last();
        match best_of(gs, front) {
            Some(b0) => {
                assert forall|x: int| #[trigger] front.contains(x) implies !(runtime_priority(gs[x].1)
                    == runtime_priority(gs[c].1) && contains(gs[x].1.id@, "static"@) == contains(gs[c].1.id@, "static"@)
                    && seq_lt(gs[x].1.id@, gs[c].1.id@) && rank_lt(plugin_rank(gs[c].1), plugin_rank(gs[b0].1))) by {
                    lemma_seq_lt_transitive(gs[x].1.id@, gs[c].1.id@, gs[b0].1.id@);
                }
            },
            None => {},
        }
        lemma_seq_lt_irreflexive(gs[c].1.id@);
        assert(cands.contains(c)) by {
            assert(cands[cands.len() - 1] == c);
        }
        assert forall|x: int| #[trigger] front.contains(x) implies cands.contains(x) by {
            let j = choose|j: int| 0 <= j < front.len() && front[j] == x;
            assert(cands[j] == x);
        }
        assert forall|x: int| #[trigger] cands.contains(x) implies x == c || front.contains(x) by {
            let j = choose|j: int| 0 <= j < cands.len() && cands[j] == x;
            if j < cands.len() - 1 {
                assert(front[j] == x);
            }
        }
    }
}

/// What completion adds under a host that no plugin in the set fills: a
/// plugin of that host that is alive, and none of the host's alive plugins
/// has a lower runtime priority (a `static` plugin, or the id, only decides
/// among plugins of equal priority); among those of that priority, a
/// `static` one when there is one; and among those alike in both, the one
/// whose id sorts first.
pub proof fn law_a_host_gets_a_running_plugin_of_least_priority(
    gs: Gears,
    d: DeadMap,
    roots: Seq<Seq<char>>,
    st: RoundState,
    k: int,
)
    requires
        0 <= k < gs.len(),
    ensures
        host_step(gs, d, roots, st, k).0.len() != st.0.len() ==> exists|p: int|
            #[trigger] implementers(gs, gs[k].1).contains(p) && host_step(gs, d, roots, st, k).0 == st.0.push(gs[p].1.id@)
                && dead_get(d, gs[p].1.id@) is None && forall|q: int|
                #[trigger] implementers(gs, gs[k].1).contains(q) && dead_get(d, gs[q].1.id@) is None
                    ==> runtime_priority(gs[p].1) <= runtime_priority(gs[q].1) && (runtime_priority(gs[q].1)
                    == runtime_priority(gs[p].1) && contains(gs[q].1.id@, "static"@) ==> contains(gs[p].1.id@, "static"@))
                    && (runtime_priority(gs[q].1) == runtime_priority(gs[p].1) && contains(gs[q].1.id@, "static"@)
                    == contains(gs[p].1.id@, "static"@) ==> !seq_lt(gs[q].1.id@, gs[p].1.id@)),
{
    let host = gs[k].1;
    let cands = implementers(gs, host);
    let alive = alive_of(gs, d, cands);
    lemma_alive_of(gs, d, cands);
    lemma_best_of(gs, alive);
    match best_of(gs, alive) {
        Some(p) => {
            assert(alive.contains(p));
            assert forall|q: int|
                #[trigger] implementers(gs, gs[k].1).contains(q) && dead_get(d, gs[q].1.id@) is None implies runtime_priority(
                gs[p].1,
            ) <= runtime_priority(gs[q].1) && (runtime_priority(gs[q].1) == runtime_priority(gs[p].1) && contains(
                gs[q].1.id@,
                "static"@,
            ) ==> contains(gs[p].1.id@, "static"@)) && (runtime_priority(gs[q].1) == runtime_priority(gs[p].1)
                && contains(gs[q].1.id@, "static"@) == contains(gs[p].1.id@, "static"@) ==> !seq_lt(
                gs[q].1.id@,
                gs[p].1.id@,
            )) by {
                assert(alive.contains(q));
            }
        },
        None => {},
    }
}

} // verus!
