//! A product preview: what is asked of the engine, where the description is
//! saved, and what the project remembers of the run.

use vstd::prelude::*;

use crate::components_catalog::gearbox::{
    diagnostic_views, ApplicationV, EngineApplication, EngineDiagnostic, EngineDiagnosticV, EngineResolvedGear,
    Resolution, ResolutionV, ResolvedGearV,
};
use crate::components_catalog::scaffold::{opt_string_view, ScaffoldWrite, ScaffoldWriteV};
use crate::json::{json_view, json_views, member_views, Json, JsonV};
use crate::numbers::{decimal, decimal_of};
use vstd::utf8::encode_utf8;

use crate::text::{chars_of, push_str, str_eq, string_of, trim, trim_chars};

verus! {

/// Where and how a previewed description is saved.
#[derive(Debug, Clone, PartialEq)]
pub struct ProductWrite {
    /// The branch it goes on; `None` writes onto the base branch itself.
    pub branch: Option<String>,
    /// The title of the pull request to open, when one is asked for.
    pub pr_title: Option<String>,
    pub message: String,
    pub path: String,
}

pub struct ProductWriteV {
    pub branch: Option<Seq<char>>,
    pub pr_title: Option<Seq<char>>,
    pub message: Seq<char>,
    pub path: Seq<char>,
}

impl View for ProductWrite {
    type V = ProductWriteV;

    open spec fn view(&self) -> ProductWriteV {
        ProductWriteV {
            branch: opt_string_view(self.branch),
            pr_title: opt_string_view(self.pr_title),
            message: self.message@,
            path: self.path@,
        }
    }
}

/// What a preview asks of the engine, and where its result is saved.
#[derive(Debug, Clone, PartialEq)]
pub struct PreviewPlan {
    pub name: String,
    pub profile: String,
    pub write: Option<ProductWrite>,
}

pub struct PreviewPlanV {
    pub name: Seq<char>,
    pub profile: Seq<char>,
    pub write: Option<ProductWriteV>,
}

impl View for PreviewPlan {
    type V = PreviewPlanV;

    open spec fn view(&self) -> PreviewPlanV {
        PreviewPlanV {
            name: self.name@,
            profile: self.profile@,
            write: match self.write {
                Some(w) => Some(w@),
                None => None,
            },
        }
    }
}

pub open spec fn hex_digit_char(d: int) -> char {
    if d < 10 {
        ((d + 48) as u32) as char
    } else {
        ((d + 87) as u32) as char
    }
}

/// Bytes as lower-case hex, two digits each.
pub open spec fn hex_of(bs: Seq<u8>) -> Seq<char>
    decreases bs.len(),
{
    if bs.len() == 0 {
        seq![]
    } else {
        hex_of(bs.drop_last()) + seq![hex_digit_char((bs.last() / 16) as int), hex_digit_char((bs.last() % 16) as int)]
    }
}

/// The short content name of a description: the first four bytes of its
/// digest (all of it, when shorter).
pub open spec fn short_digest(digest: Seq<u8>) -> Seq<char> {
    hex_of(if digest.len() <= 4 { digest } else { digest.take(4) })
}

pub open spec fn opt_seq(o: Option<&str>) -> Option<Seq<char>> {
    match o {
        Some(s) => Some(s@),
        None => None,
    }
}

/// The plan of a preview. Nothing is previewed without a gear. The name
/// falls back to the product id, the profile to `dev`. A written
/// description goes on a `product/{id}-{digest}` branch named after its
/// content, so the same description saved twice lands on the branch it
/// already has, unless it is written onto the base branch, which asking for
/// a pull request rules out.
pub open spec fn preview_plan_of(
    product_id: Seq<char>,
    gear_count: nat,
    name: Option<Seq<char>>,
    profile: Option<Seq<char>>,
    write: bool,
    onto_base: bool,
    open_pr: bool,
    digest: Seq<u8>,
) -> Result<PreviewPlanV, Seq<char>> {
    if gear_count == 0 {
        Err("pick at least one gear"@)
    } else {
        Ok(
            PreviewPlanV {
                name: match name {
                    Some(n) => if trim(n).len() > 0 { trim(n) } else { product_id },
                    None => product_id,
                },
                profile: match profile {
                    Some(p) => p,
                    None => "dev"@,
                },
                write: if write {
                    Some(
                        ProductWriteV {
                            branch: if onto_base && !open_pr {
                                None
                            } else {
                                Some("product/"@ + product_id + "-"@ + short_digest(digest))
                            },
                            pr_title: if open_pr {
                                Some("Describe the "@ + product_id + " product"@)
                            } else {
                                None
                            },
                            message: "product: describe "@ + product_id + " for Gearbox"@,
                            path: "product.gdl"@,
                        },
                    )
                } else {
                    None
                },
            },
        )
    }
}

fn hex_digit_exec(d: u8) -> (c: char)
    requires
        d < 16,
    ensures
        c == hex_digit_char(d as int),
{
    if d < 10 {
        (d + 48) as char
    } else {
        (d + 87) as char
    }
}

fn hex_exec(bs: &[u8], n: usize) -> (out: Vec<char>)
    requires
        n <= bs@.len(),
    ensures
        out@ == hex_of(bs@.take(n as int)),
{
    let mut out: Vec<char> = Vec::new();
    for i in 0..n
        invariant
            n <= bs@.len(),
            out@ == hex_of(bs@.take(i as int)),
    {
        proof {
            assert(bs@.take(i + 1).drop_last() == bs@.take(i as int));
            assert(bs@.take(i + 1).last() == bs@[i as int]);
        }
        out.push(hex_digit_exec(bs[i] / 16));
        out.push(hex_digit_exec(bs[i] % 16));
    }
    out
}

/// Decide how a product preview runs and where it is saved, from the
/// request and `digest`, the SHA-256 of the description the engine wrote.
pub fn preview_plan_with_digest(
    product_id: &str,
    gears: &[String],
    name: Option<&str>,
    profile: Option<&str>,
    write: bool,
    onto_base: bool,
    open_pr: bool,
    digest: &[u8],
) -> (out: Result<PreviewPlan, String>)
    ensures
        match out {
            Ok(p) => preview_plan_of(product_id@, gears@.len(), opt_seq(name), opt_seq(profile), write, onto_base, open_pr, digest@)
                == Ok::<PreviewPlanV, Seq<char>>(p@),
            Err(e) => preview_plan_of(product_id@, gears@.len(), opt_seq(name), opt_seq(profile), write, onto_base, open_pr, digest@)
                == Err::<PreviewPlanV, Seq<char>>(e@),
        },
{
    if gears.len() == 0 {
        return Err("pick at least one gear".to_owned());
    }
    let shown_name = match name {
        Some(n) => {
            let t = trim_chars(&chars_of(n));
            if t.len() > 0 {
                string_of(&t)
            } else {
                product_id.to_owned()
            }
        },
        None => product_id.to_owned(),
    };
    let prof = match profile {
        Some(p) => p.to_owned(),
        None => "dev".to_owned(),
    };
    let plan_write = if write {
        let branch = if onto_base && !open_pr {
            None
        } else {
            let k: usize = if digest.len() <= 4 { digest.len() } else { 4 };
            let hex = hex_exec(digest, k);
            let mut b: Vec<char> = Vec::new();
            push_str(&mut b, "product/");
            push_str(&mut b, product_id);
            push_str(&mut b, "-");
            let ghost before = b@;
            let mut j: usize = 0;
            while j < hex.len()
                invariant
                    j <= hex@.len(),
                    b@ == before + hex@.take(j as int),
                decreases hex@.len() - j,
            {
                b.push(hex[j]);
                proof {
                    assert(hex@.take(j + 1) == hex@.take(j as int).push(hex@[j as int]));
                }
                j = j + 1;
            }
            proof {
                assert(hex@.take(j as int) == hex@);
                if digest@.len() <= 4 {
                    assert(digest@.take(k as int) == digest@);
                }
            }
            Some(string_of(&b))
        };
        let pr_title = if open_pr {
            let mut t: Vec<char> = Vec::new();
            push_str(&mut t, "Describe the ");
            push_str(&mut t, product_id);
            push_str(&mut t, " product");
            Some(string_of(&t))
        } else {
            None
        };
        let mut m: Vec<char> = Vec::new();
        push_str(&mut m, "product: describe ");
        push_str(&mut m, product_id);
        push_str(&mut m, " for Gearbox");
        Some(ProductWrite { branch, pr_title, message: string_of(&m), path: "product.gdl".to_owned() })
    } else {
        None
    };
    Ok(PreviewPlan { name: shown_name, profile: prof, write: plan_write })
}

/// How many diagnostics have severity `sev`.
pub open spec fn count_severity(ds: Seq<EngineDiagnosticV>, sev: Seq<char>) -> nat
    decreases ds.len(),
{
    if ds.len() == 0 {
        0
    } else {
        count_severity(ds.drop_last(), sev) + if ds.last().severity == sev { 1nat } else { 0nat }
    }
}

pub open spec fn str_array(v: Seq<Seq<char>>) -> JsonV {
    JsonV::Array(v.map_values(|s: Seq<char>| JsonV::Str(s)))
}

pub open spec fn opt_str_json(o: Option<Seq<char>>) -> JsonV {
    match o {
        Some(s) => JsonV::Str(s),
        None => JsonV::Null,
    }
}

/// What the engine said of the last preview, as the project keeps it.
pub open spec fn last_preview_of(profile: Seq<char>, r: ResolutionV, corpus_commit: Option<Seq<char>>) -> JsonV {
    let errors = count_severity(r.diagnostics, "error"@);
    let warnings = count_severity(r.diagnostics, "warning"@);
    JsonV::Object(
        seq![
            ("applications"@, str_array(r.applications.map_values(|a: ApplicationV| a.name))),
            ("corpus_commit"@, opt_str_json(corpus_commit)),
            ("errors"@, JsonV::Number(decimal(errors))),
            ("gears"@, str_array(r.gears.map_values(|g: ResolvedGearV| g.crate_name))),
            ("ok"@, JsonV::Bool(errors == 0)),
            ("profile"@, JsonV::Str(profile)),
            ("warnings"@, JsonV::Number(decimal(warnings))),
        ],
    )
}

pub open spec fn written_of(w: ScaffoldWriteV) -> JsonV {
    JsonV::Object(
        seq![
            ("branch"@, JsonV::Str(w.branch)),
            ("commit_sha"@, JsonV::Str(w.commit_sha)),
            ("pr_url"@, opt_str_json(w.pr_url)),
        ],
    )
}

/// The project's product after a preview: what was asked, what the engine
/// said of it, and where it was saved, if it was.
pub open spec fn preview_record_of(
    product_id: Seq<char>,
    name: Seq<char>,
    gears: Seq<Seq<char>>,
    config: JsonV,
    profile: Seq<char>,
    r: ResolutionV,
    corpus_commit: Option<Seq<char>>,
    written: Option<ScaffoldWriteV>,
) -> JsonV {
    let head = seq![
        ("config"@, config),
        ("gears"@, str_array(gears)),
        ("last_preview"@, last_preview_of(profile, r, corpus_commit)),
        ("name"@, JsonV::Str(name)),
        ("product_id"@, JsonV::Str(product_id)),
        ("profile"@, JsonV::Str(profile)),
    ];
    JsonV::Object(
        match written {
            Some(w) => head.push(("written"@, written_of(w))),
            None => head,
        },
    )
}

pub(crate) fn push_member(m: &mut Vec<(String, Json)>, key: &str, v: Json)
    ensures
        member_views(final(m)@) == member_views(old(m)@).push((key@, json_view(v))),
{
    let ghost before = m@;
    m.push((key.to_owned(), v));
    proof {
        assert(m@.drop_last() == before);
    }
}

fn strings_json(v: &[String]) -> (out: Json)
    ensures
        json_view(out) == str_array(v@.map_values(|s: String| s@)),
{
    let ghost sv = v@.map_values(|s: String| s@);
    let mut items: Vec<Json> = Vec::new();
    let n = v.len();
    for i in 0..n
        invariant
            n == v@.len(),
            sv == v@.map_values(|s: String| s@),
            json_views(items@) == sv.take(i as int).map_values(|s: Seq<char>| JsonV::Str(s)),
    {
        let ghost before = items@;
        let c = v[i].clone();
        assert(c@ == sv[i as int]);
        let item = Json::Str(c);
        assert(json_view(item) == JsonV::Str(sv[i as int]));
        items.push(item);
        proof {
            assert(items@.drop_last() == before);
            assert(items@.last() == item);
            assert(json_views(items@) == json_views(before).push(JsonV::Str(sv[i as int])));
            assert(sv.take(i + 1).map_values(|s: Seq<char>| JsonV::Str(s)) =~= sv.take(i as int).map_values(
                |s: Seq<char>| JsonV::Str(s),
            ).push(JsonV::Str(sv[i as int])));
        }
    }
    proof {
        assert(sv.take(n as int) == sv);
    }
    Json::Array(items)
}

fn opt_json(o: Option<&str>) -> (out: Json)
    ensures
        json_view(out) == opt_str_json(opt_seq(o)),
{
    match o {
        Some(s) => Json::Str(s.to_owned()),
        None => Json::Null,
    }
}

fn count_exec(ds: &Vec<EngineDiagnostic>, sev: &str) -> (out: u64)
    ensures
        out == count_severity(diagnostic_views(ds@), sev@),
{
    let ghost dv = diagnostic_views(ds@);
    let n = ds.len();
    let mut c: u64 = 0;
    for i in 0..n
        invariant
            n == ds@.len(),
            dv == diagnostic_views(ds@),
            c == count_severity(dv.take(i as int), sev@),
            c <= i,
    {
        proof {
            assert(dv.take(i + 1).drop_last() == dv.take(i as int));
            assert(dv.take(i + 1).last() == ds@[i as int]@);
        }
        if str_eq(ds[i].severity.as_str(), sev) {
            c = c + 1;
        }
    }
    proof {
        assert(dv.take(n as int) == dv);
    }
    c
}

/// The record a preview leaves on the project: the request, the engine's
/// verdict (`ok` exactly when no diagnostic is an error, the error and
/// warning counts, the applications and gears it resolved, the corpus
/// commit it read) and, when the description was saved, where.
pub fn preview_record(
    product_id: &str,
    name: &str,
    gears: &[String],
    config: Json,
    profile: &str,
    r: &Resolution,
    corpus_commit: Option<&str>,
    written: Option<&ScaffoldWrite>,
) -> (out: Json)
    ensures
        json_view(out) == preview_record_of(
            product_id@,
            name@,
            gears@.map_values(|s: String| s@),
            json_view(config),
            profile@,
            r@,
            opt_seq(corpus_commit),
            match written {
                Some(w) => Some(w@),
                None => None,
            },
        ),
{
    let errors = count_exec(&r.diagnostics, "error");
    let warnings = count_exec(&r.diagnostics, "warning");
    let mut app_names: Vec<String> = Vec::new();
    let na = r.applications.len();
    for i in 0..na
        invariant
            na == r.applications@.len(),
            app_names@.map_values(|s: String| s@) == r.applications@.take(i as int).map_values(|a: EngineApplication| a@.name),
    {
        let ghost before = app_names@;
        app_names.push(r.applications[i].name.clone());
        proof {
            assert(app_names@.map_values(|s: String| s@) =~= before.map_values(|s: String| s@).push(r.applications@[i as int]@.name));
            assert(r.applications@.take(i + 1).map_values(|a: EngineApplication| a@.name) =~= r.applications@.take(i as int).map_values(|a: EngineApplication| a@.name).push(r.applications@[i as int]@.name));
        }
    }
    let mut gear_names: Vec<String> = Vec::new();
    let ng = r.gears.len();
    for i in 0..ng
        invariant
            ng == r.gears@.len(),
            gear_names@.map_values(|s: String| s@) == r.gears@.take(i as int).map_values(|g: EngineResolvedGear| g@.crate_name),
    {
        let ghost before = gear_names@;
        gear_names.push(r.gears[i].crate_name.clone());
        proof {
            assert(gear_names@.map_values(|s: String| s@) =~= before.map_values(|s: String| s@).push(r.gears@[i as int]@.crate_name));
            assert(r.gears@.take(i + 1).map_values(|g: EngineResolvedGear| g@.crate_name) =~= r.gears@.take(i as int).map_values(|g: EngineResolvedGear| g@.crate_name).push(r.gears@[i as int]@.crate_name));
        }
    }
    proof {
        assert(r.applications@.take(na as int) == r.applications@);
        assert(r.gears@.take(ng as int) == r.gears@);
        assert(r@.applications.map_values(|a: ApplicationV| a.name) =~= r.applications@.map_values(|a: EngineApplication| a@.name));
        assert(r@.gears.map_values(|g: ResolvedGearV| g.crate_name) =~= r.gears@.map_values(|g: EngineResolvedGear| g@.crate_name));
    }
    let apps_json = strings_json(app_names.as_slice());
    let gears_json = strings_json(gear_names.as_slice());
    assert(json_view(apps_json) == str_array(app_names@.map_values(|s: String| s@)));
    let mut lp: Vec<(String, Json)> = Vec::new();
    push_member(&mut lp, "applications", apps_json);
    push_member(&mut lp, "corpus_commit", opt_json(corpus_commit));
    push_member(&mut lp, "errors", Json::Number(string_of(&decimal_of(errors))));
    push_member(&mut lp, "gears", gears_json);
    push_member(&mut lp, "ok", Json::Bool(errors == 0));
    push_member(&mut lp, "profile", Json::Str(profile.to_owned()));
    push_member(&mut lp, "warnings", Json::Number(string_of(&decimal_of(warnings))));
    proof {
        assert(app_names@.map_values(|s: String| s@) =~= r@.applications.map_values(|a: ApplicationV| a.name));
        assert(gear_names@.map_values(|s: String| s@) =~= r@.gears.map_values(|g: ResolvedGearV| g.crate_name));
        let e = count_severity(r@.diagnostics, "error"@);
        let w = count_severity(r@.diagnostics, "warning"@);
        assert(member_views(lp@) =~= seq![
            ("applications"@, str_array(r@.applications.map_values(|a: ApplicationV| a.name))),
            ("corpus_commit"@, opt_str_json(opt_seq(corpus_commit))),
            ("errors"@, JsonV::Number(decimal(e))),
            ("gears"@, str_array(r@.gears.map_values(|g: ResolvedGearV| g.crate_name))),
            ("ok"@, JsonV::Bool(e == 0)),
            ("profile"@, JsonV::Str(profile@)),
            ("warnings"@, JsonV::Number(decimal(w))),
        ]);
    }
    assert(json_view(Json::Object(lp)) == last_preview_of(profile@, r@, opt_seq(corpus_commit)));
    let mut rec: Vec<(String, Json)> = Vec::new();
    push_member(&mut rec, "config", config);
    push_member(&mut rec, "gears", strings_json(gears));
    push_member(&mut rec, "last_preview", Json::Object(lp));
    push_member(&mut rec, "name", Json::Str(name.to_owned()));
    push_member(&mut rec, "product_id", Json::Str(product_id.to_owned()));
    push_member(&mut rec, "profile", Json::Str(profile.to_owned()));
    assert(member_views(rec@) =~= seq![
        ("config"@, json_view(config)),
        ("gears"@, str_array(gears@.map_values(|s: String| s@))),
        ("last_preview"@, last_preview_of(profile@, r@, opt_seq(corpus_commit))),
        ("name"@, JsonV::Str(name@)),
        ("product_id"@, JsonV::Str(product_id@)),
        ("profile"@, JsonV::Str(profile@)),
    ]);
    match written {
        Some(w) => {
            let mut wm: Vec<(String, Json)> = Vec::new();
            push_member(&mut wm, "branch", Json::Str(w.branch.clone()));
            push_member(&mut wm, "commit_sha", Json::Str(w.commit_sha.clone()));
            let pr = match &w.pr_url {
                Some(u) => Json::Str(u.clone()),
                None => Json::Null,
            };
            push_member(&mut wm, "pr_url", pr);
            assert(member_views(wm@) =~= seq![
                ("branch"@, JsonV::Str(w@.branch)),
                ("commit_sha"@, JsonV::Str(w@.commit_sha)),
                ("pr_url"@, opt_str_json(w@.pr_url)),
            ]);
            push_member(&mut rec, "written", Json::Object(wm));
        },
        None => {},
    }
    Json::Object(rec)
}


/// The SHA-256 digest of these bytes.
pub uninterp spec fn sha256_of(bytes: Seq<u8>) -> Seq<u8>;

/// `sha2::Sha256::digest`: the digest is named, not stated; claimed of it
/// only that it is 32 bytes long.
#[verifier::external_body]
fn sha256(bytes: &[u8]) -> (out: Vec<u8>)
    ensures
        out@ == sha256_of(bytes@),
        out@.len() == 32,
{
    <sha2::Sha256 as sha2::Digest>::digest(bytes).to_vec()
}

/// Decide how a product preview runs and where it is saved. A saved
/// description goes on `product/{id}-{digest}`, the digest being the first
/// four bytes of the SHA-256 of `product_gdl`, the description the engine
/// wrote: the same description saved twice lands on the same branch.
pub fn preview_plan(
    product_id: &str,
    gears: &[String],
    name: Option<&str>,
    profile: Option<&str>,
    write: bool,
    onto_base: bool,
    open_pr: bool,
    product_gdl: &str,
) -> (out: Result<PreviewPlan, String>)
    ensures
        match out {
            Ok(p) => preview_plan_of(
                product_id@,
                gears@.len(),
                opt_seq(name),
                opt_seq(profile),
                write,
                onto_base,
                open_pr,
                sha256_of(encode_utf8(product_gdl@)),
            ) == Ok::<PreviewPlanV, Seq<char>>(p@),
            Err(e) => preview_plan_of(
                product_id@,
                gears@.len(),
                opt_seq(name),
                opt_seq(profile),
                write,
                onto_base,
                open_pr,
                sha256_of(encode_utf8(product_gdl@)),
            ) == Err::<PreviewPlanV, Seq<char>>(e@),
        },
{
    let digest = sha256(product_gdl.as_bytes());
    preview_plan_with_digest(product_id, gears, name, profile, write, onto_base, open_pr, digest.as_slice())
}

} // verus!
