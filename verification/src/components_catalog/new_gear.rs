//! What a new gear is scaffolded as: its crate, its display name, its kind,
//! and, for a plugin, the extension point it fills and where that point's SDK
//! sits relative to the new gear.

use vstd::prelude::*;

use crate::components_catalog::gearbox::{
    gear_kind_of, point_views, sdk_path_from_gear, sdk_path_from_gear_of, GearKind, HostPoint, HostPointV,
};
use crate::components_catalog::skeleton::{gear_slug, gear_slug_of, title_case, title_case_of};
use crate::text::{chars_of, join_str, join_strings, push_str, str_eq, string_of, trim, trim_chars};

verus! {

/// Where the SDK a plugin implements lives, as its `gear.gdl` writes it.
#[derive(Debug, Clone, PartialEq, Eq)]
pub struct SdkLocator {
    pub crate_name: String,
    pub lib_ident: String,
    /// Relative to the new gear's own directory.
    pub path: String,
}

pub struct SdkLocatorV {
    pub crate_name: Seq<char>,
    pub lib_ident: Seq<char>,
    pub path: Seq<char>,
}

impl View for SdkLocator {
    type V = SdkLocatorV;

    open spec fn view(&self) -> SdkLocatorV {
        SdkLocatorV { crate_name: self.crate_name@, lib_ident: self.lib_ident@, path: self.path@ }
    }
}

/// What the engine is asked to scaffold.
#[derive(Debug, Clone)]
pub struct GearScaffold {
    /// The crate, which is also the id the engine names the package after.
    pub crate_name: String,
    pub name: String,
    pub kind: GearKind,
    pub plugin: Option<SdkLocator>,
}

pub struct GearScaffoldV {
    pub crate_name: Seq<char>,
    pub name: Seq<char>,
    pub kind: GearKind,
    pub plugin: Option<SdkLocatorV>,
}

impl View for GearScaffold {
    type V = GearScaffoldV;

    open spec fn view(&self) -> GearScaffoldV {
        GearScaffoldV {
            crate_name: self.crate_name@,
            name: self.name@,
            kind: self.kind,
            plugin: match self.plugin {
                Some(p) => Some(p@),
                None => None,
            },
        }
    }
}

/// `p` belongs to `host`, named by crate or by engine id.
pub open spec fn serves(p: HostPointV, host: Seq<char>) -> bool {
    p.host_crate == host || p.host_id == host
}

/// The points of `host`, in the order they are listed.
pub open spec fn points_of_host(ps: Seq<HostPointV>, host: Seq<char>) -> Seq<HostPointV>
    decreases ps.len(),
{
    if ps.len() == 0 {
        seq![]
    } else if serves(ps.last(), host) {
        points_of_host(ps.drop_last(), host).push(ps.last())
    } else {
        points_of_host(ps.drop_last(), host)
    }
}

pub open spec fn sdk_names(ps: Seq<HostPointV>) -> Seq<Seq<char>> {
    ps.map_values(|p: HostPointV| p.sdk_crate)
}

pub open spec fn several_points_message(host: Seq<char>, ps: Seq<HostPointV>) -> Seq<char> {
    "`"@ + host + "` declares several extension points; name one by its SDK: "@ + join_str(sdk_names(ps), ", "@)
}

pub open spec fn no_point_message(host: Seq<char>) -> Seq<char> {
    "`"@ + host + "` has no such extension point the Gearbox engine knows of"@
}

/// The one extension point `host` declares; a host with several, or with
/// none, is refused.
pub open spec fn pick_point_of(ps: Seq<HostPointV>, host: Seq<char>) -> Result<HostPointV, Seq<char>> {
    let of_host = points_of_host(ps, host);
    if of_host.len() > 1 {
        Err(several_points_message(host, of_host))
    } else if of_host.len() == 0 {
        Err(no_point_message(host))
    } else {
        Ok(of_host[0])
    }
}

fn copy_point(p: &HostPoint) -> (out: HostPoint)
    ensures
        out@ == p@,
{
    HostPoint {
        host_id: p.host_id.clone(),
        host_crate: p.host_crate.clone(),
        sdk_crate: p.sdk_crate.clone(),
        sdk_lib: p.sdk_lib.clone(),
        sdk_path: p.sdk_path.clone(),
        runs: p.runs,
    }
}

/// The extension point a new plugin of `host` fills: the one point whose
/// host crate or host id is `host`.
pub fn pick_extension_point(points: &[HostPoint], host: &str) -> (out: Result<HostPoint, String>)
    ensures
        match out {
            Ok(p) => pick_point_of(point_views(points@), host@) == Ok::<HostPointV, Seq<char>>(p@),
            Err(e) => pick_point_of(point_views(points@), host@) == Err::<HostPointV, Seq<char>>(e@),
        },
{
    let ghost pv = point_views(points@);
    let n = points.len();
    let mut of_host: Vec<HostPoint> = Vec::new();
    for i in 0..n
        invariant
            n == points@.len(),
            pv == point_views(points@),
            point_views(of_host@) == points_of_host(pv.take(i as int), host@),
    {
        proof {
            assert(pv.take(i + 1).drop_last() == pv.take(i as int));
            assert(pv.take(i + 1).last() == points@[i as int]@);
        }
        if str_eq(points[i].host_crate.as_str(), host) || str_eq(points[i].host_id.as_str(), host) {
            let c = copy_point(&points[i]);
            let ghost before = point_views(of_host@);
            of_host.push(c);
            proof {
                assert(point_views(of_host@) =~= before.push(c@));
            }
        } else {
            proof {
                assert(!serves(pv[i as int], host@));
            }
        }
    }
    proof {
        assert(pv.take(n as int) == pv);
    }
    let ghost ov = point_views(of_host@);
    if of_host.len() > 1 {
        let mut names: Vec<String> = Vec::new();
        let m = of_host.len();
        for j in 0..m
            invariant
                m == of_host@.len(),
                ov == point_views(of_host@),
                names@.map_values(|s: String| s@) == sdk_names(ov.take(j as int)),
        {
            names.push(of_host[j].sdk_crate.clone());
            proof {
                assert(sdk_names(ov.take(j + 1)) =~= sdk_names(ov.take(j as int)).push(ov[j as int].sdk_crate));
                assert(names@.map_values(|s: String| s@) =~= sdk_names(ov.take(j + 1)));
            }
        }
        proof {
            assert(ov.take(m as int) == ov);
        }
        let listed = join_strings(&names, ", ");
        let mut msg: Vec<char> = Vec::new();
        push_str(&mut msg, "`");
        push_str(&mut msg, host);
        push_str(&mut msg, "` declares several extension points; name one by its SDK: ");
        push_str(&mut msg, listed.as_str());
        return Err(string_of(&msg));
    }
    if of_host.len() == 0 {
        let mut msg: Vec<char> = Vec::new();
        push_str(&mut msg, "`");
        push_str(&mut msg, host);
        push_str(&mut msg, "` has no such extension point the Gearbox engine knows of");
        return Err(string_of(&msg));
    }
    Ok(copy_point(&of_host[0]))
}

pub open spec fn bad_kind_message(kind: Seq<char>) -> Seq<char> {
    "gear kind `"@ + kind + "` is not one of minimal, service, plugin"@
}

pub open spec fn no_host_message() -> Seq<char> {
    "a plugin needs `plugin_host`, the gear whose extension point it fills"@
}

/// The SDK a plugin of the point `p` reaches, from a gear under `parent_dir`.
pub open spec fn locator_of(p: HostPointV, parent_dir: Seq<char>) -> SdkLocatorV {
    SdkLocatorV {
        crate_name: p.sdk_crate,
        lib_ident: p.sdk_lib,
        path: sdk_path_from_gear_of(parent_dir, p.sdk_path),
    }
}

/// The host a plugin names: trimmed, and a blank one is no host.
pub open spec fn named_host(plugin_host: Option<Seq<char>>) -> Option<Seq<char>> {
    match plugin_host {
        Some(h) => if trim(h).len() > 0 { Some(trim(h)) } else { None },
        None => None,
    }
}

/// The scaffold a new gear is described by: `cf-gears-{slug}`, titled after
/// its slug, of the kind asked for; a plugin also names the one extension
/// point of its host and where that point's SDK sits from the new gear.
pub open spec fn gear_scaffold_of(
    kind_text: Seq<char>,
    plugin_host: Option<Seq<char>>,
    points: Seq<HostPointV>,
    parent_dir: Seq<char>,
    slug: Seq<char>,
) -> Result<GearScaffoldV, Seq<char>> {
    let s = gear_slug_of(slug);
    let made = |kind: GearKind, plugin: Option<SdkLocatorV>|
        GearScaffoldV { crate_name: "cf-gears-"@ + s, name: title_case_of(s), kind, plugin };
    match gear_kind_of(kind_text) {
        None => Err(bad_kind_message(kind_text)),
        Some(GearKind::Plugin) => match named_host(plugin_host) {
            None => Err(no_host_message()),
            Some(h) => match pick_point_of(points, h) {
                Err(e) => Err(e),
                Ok(p) => Ok(made(GearKind::Plugin, Some(locator_of(p, parent_dir)))),
            },
        },
        Some(k) => Ok(made(k, None)),
    }
}

/// Decide what a new gear is scaffolded as, from the kind asked for, the
/// plugin host named (for a plugin), the extension points the engine knows,
/// the directory the gear goes under and its slug.
pub fn gear_scaffold(
    kind_text: &str,
    plugin_host: Option<&str>,
    points: &[HostPoint],
    parent_dir: &str,
    slug: &str,
) -> (out: Result<GearScaffold, String>)
    ensures
        match out {
            Ok(g) => gear_scaffold_of(kind_text@, opt_str_view(plugin_host), point_views(points@), parent_dir@, slug@)
                == Ok::<GearScaffoldV, Seq<char>>(g@),
            Err(e) => gear_scaffold_of(kind_text@, opt_str_view(plugin_host), point_views(points@), parent_dir@, slug@)
                == Err::<GearScaffoldV, Seq<char>>(e@),
        },
{
    let kind = match GearKind::parse(kind_text) {
        Some(k) => k,
        None => {
            let mut msg: Vec<char> = Vec::new();
            push_str(&mut msg, "gear kind `");
            push_str(&mut msg, kind_text);
            push_str(&mut msg, "` is not one of minimal, service, plugin");
            return Err(string_of(&msg));
        },
    };
    let plugin = if kind == GearKind::Plugin {
        let host = match plugin_host {
            Some(h) => trim_chars(&chars_of(h)),
            None => Vec::new(),
        };
        if host.len() == 0 {
            return Err("a plugin needs `plugin_host`, the gear whose extension point it fills".to_owned());
        }
        let host = string_of(&host);
        match pick_extension_point(points, host.as_str()) {
            Err(e) => return Err(e),
            Ok(p) => Some(
                SdkLocator {
                    crate_name: p.sdk_crate.clone(),
                    lib_ident: p.sdk_lib.clone(),
                    path: sdk_path_from_gear(parent_dir, p.sdk_path.as_str()),
                },
            ),
        }
    } else {
        None
    };
    let s = gear_slug(slug);
    let mut crate_name: Vec<char> = Vec::new();
    push_str(&mut crate_name, "cf-gears-");
    push_str(&mut crate_name, s.as_str());
    let name = title_case(s.as_str());
    let out = GearScaffold { crate_name: string_of(&crate_name), name, kind, plugin };
    proof {
        reveal_strlit("a plugin needs `plugin_host`, the gear whose extension point it fills");
    }
    Ok(out)
}

pub open spec fn opt_str_view(s: Option<&str>) -> Option<Seq<char>> {
    match s {
        Some(t) => Some(t@),
        None => None,
    }
}

} // verus!
