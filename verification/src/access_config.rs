//! An organization's Studio access config: who holds which role in it. This
//! module is the shape the read side asks questions of.

use vstd::prelude::*;

use crate::json::{json_array, json_bool, json_get, json_str, json_view, json_views, member_from, member_views, str_at, Json, JsonV};
use crate::components_catalog::values::{
    has_key, lemma_get_none, lemma_json_views_at, lemma_json_views_ext, lemma_json_views_len, lemma_member_views_at,
    lemma_get_at, lemma_get_some, lemma_member_views_ext, lemma_member_views_len, lemma_vmap_put, lemma_vput_at, map_put,
    vmap_get, vmap_has, vmap_put, vput_at, vsorted, VMap,
};
use crate::text::{lemma_seq_lt_irreflexive, seq_lt};
use crate::text::str_eq;

verus! {

/// The tenant-metadata type the access config is stored under.
pub const ACCESS_METADATA_TYPE: &'static str = "gts.cf.core.am.tenant_metadata.v1~cf.studio.access.config.v1~";

/// `subjectType` for a grant naming one person rather than a team.
pub const SUBJECT_MEMBER: &'static str = "member";

/// `scopeType` for a grant covering a whole organization.
pub const SCOPE_ORG: &'static str = "org";

/// The role key that makes somebody an owner.
pub const ROLE_OWNER: &'static str = "owner";

/// The `model` value that turns role evaluation on for an organization.
pub const MODEL_ROLES: &'static str = "roles";

/// One role of the ladder and the privileges it carries.
#[derive(Debug, Clone)]
pub struct RoleDef {
    pub key: String,
    pub privileges: Vec<String>,
}

/// One grant of a role to a subject over a scope.
#[derive(Debug, Clone)]
pub struct GrantDef {
    pub subject_type: String,
    pub subject_id: String,
    pub role_key: String,
    pub scope_type: String,
}

/// The subset of the document this assembly writes and asks questions of.
#[derive(Debug, Clone)]
pub struct AccessConfig {
    pub model: String,
    pub roles: Vec<RoleDef>,
    pub grants: Vec<GrantDef>,
}

impl Default for AccessConfig {
    fn default() -> (out: Self)
        ensures
            out.model@.len() == 0,
            out.roles@.len() == 0,
            out.grants@.len() == 0,
    {
        AccessConfig { model: String::new(), roles: Vec::new(), grants: Vec::new() }
    }
}

pub open spec fn str_views(s: Seq<String>) -> Seq<Seq<char>> {
    s.map_values(|x: String| x@)
}

/// A grant to one of `subjects` as a member, over the whole organization.
pub open spec fn org_member_grant(g: GrantDef, subjects: Seq<Seq<char>>) -> bool {
    g.subject_type@ == SUBJECT_MEMBER@ && subjects.contains(g.subject_id@) && g.scope_type@
        == SCOPE_ORG@
}

/// The organization-wide owner grant, held by one of `subjects`.
pub open spec fn owner_grant(g: GrantDef, subjects: Seq<Seq<char>>) -> bool {
    org_member_grant(g, subjects) && g.role_key@ == ROLE_OWNER@
}

/// Where the first role named `key` sits, if any does.
pub open spec fn first_role(roles: Seq<RoleDef>, key: Seq<char>) -> Option<int> {
    if exists|i: int| 0 <= i < roles.len() && roles[i].key@ == key {
        Some(
            choose|i: int|
                0 <= i < roles.len() && roles[i].key@ == key && forall|j: int|
                    0 <= j < i ==> roles[j].key@ != key,
        )
    } else {
        None
    }
}

/// An owner carries everything; any other role carries what the first role
/// of that name in the ladder lists.
pub open spec fn carries(roles: Seq<RoleDef>, key: Seq<char>, privilege: Seq<char>) -> bool {
    key == ROLE_OWNER@ || match first_role(roles, key) {
        Some(i) => str_views(roles[i].privileges@).contains(privilege),
        None => false,
    }
}

pub open spec fn holds_ownership(c: AccessConfig, subjects: Seq<Seq<char>>) -> bool {
    exists|i: int| 0 <= i < c.grants@.len() && owner_grant(c.grants@[i], subjects)
}

pub open spec fn holds_privilege(c: AccessConfig, subjects: Seq<Seq<char>>, privilege: Seq<char>) -> bool {
    exists|i: int|
        0 <= i < c.grants@.len() && org_member_grant(c.grants@[i], subjects) && carries(
            c.roles@,
            c.grants@[i].role_key@,
            privilege,
        )
}

fn contains_str(subjects: &[String], s: &String) -> (r: bool)
    ensures
        r == str_views(subjects@).contains(s@),
{
    let n = subjects.len();
    for i in 0..n
        invariant
            n == subjects@.len(),
            forall|j: int| 0 <= j < i ==> subjects@[j]@ != s@,
    {
        if subjects[i] == *s {
            proof {
                assert(str_views(subjects@)[i as int] == s@);
            }
            return true;
        }
    }
    proof {
        if str_views(subjects@).contains(s@) {
            let k = choose|k: int| 0 <= k < str_views(subjects@).len() && str_views(subjects@)[k] == s@;
            assert(subjects@[k]@ == s@);
        }
    }
    false
}

fn is_org_member_grant(g: &GrantDef, subjects: &[String]) -> (r: bool)
    ensures
        r == org_member_grant(*g, str_views(subjects@)),
{
    str_eq(g.subject_type.as_str(), SUBJECT_MEMBER) && contains_str(subjects, &g.subject_id)
        && str_eq(g.scope_type.as_str(), SCOPE_ORG)
}

impl AccessConfig {
    /// Does the person behind `subjects` hold the organization-wide owner
    /// grant? `subjects` is every sign-in subject that belongs to one person.
    pub fn grants_ownership_to(&self, subjects: &[String]) -> (r: bool)
        ensures
            r == holds_ownership(*self, str_views(subjects@)),
    {
        let n = self.grants.len();
        for i in 0..n
            invariant
                n == self.grants@.len(),
                forall|j: int| 0 <= j < i ==> !owner_grant(self.grants@[j], str_views(subjects@)),
        {
            let g = &self.grants[i];
            if is_org_member_grant(g, subjects) && str_eq(g.role_key.as_str(), ROLE_OWNER) {
                return true;
            }
        }
        false
    }

    /// Has this organization opted into role-based access?
    pub fn is_roles_model(&self) -> (r: bool)
        ensures
            r == (self.model@ == MODEL_ROLES@),
    {
        str_eq(self.model.as_str(), MODEL_ROLES)
    }

    /// Does the person behind `subjects` hold `privilege` across the whole
    /// organization? Only organization-scoped member grants count.
    pub fn grants_privilege_to(&self, subjects: &[String], privilege: &str) -> (r: bool)
        ensures
            r == holds_privilege(*self, str_views(subjects@), privilege@),
    {
        let n = self.grants.len();
        for i in 0..n
            invariant
                n == self.grants@.len(),
                forall|j: int|
                    0 <= j < i ==> !(org_member_grant(self.grants@[j], str_views(subjects@))
                        && carries(self.roles@, self.grants@[j].role_key@, privilege@)),
        {
            let g = &self.grants[i];
            if is_org_member_grant(g, subjects) && self.role_carries(g.role_key.as_str(), privilege) {
                return true;
            }
        }
        false
    }

    /// Does the named role carry `privilege`? An owner's authority is
    /// definitional rather than looked up.
    fn role_carries(&self, role_key: &str, privilege: &str) -> (r: bool)
        ensures
            r == carries(self.roles@, role_key@, privilege@),
    {
        if str_eq(role_key, ROLE_OWNER) {
            return true;
        }
        let n = self.roles.len();
        for i in 0..n
            invariant
                n == self.roles@.len(),
                role_key@ != ROLE_OWNER@,
                forall|j: int| 0 <= j < i ==> self.roles@[j].key@ != role_key@,
        {
            let role = &self.roles[i];
            if str_eq(role.key.as_str(), role_key) {
                proof {
                    assert(first_role(self.roles@, role_key@) == Some(i as int)) by {
                        let c = choose|c: int|
                            0 <= c < self.roles@.len() && self.roles@[c].key@ == role_key@ && forall|j: int|
                                0 <= j < c ==> self.roles@[j].key@ != role_key@;
                        if c < i {
                            assert(self.roles@[c].key@ != role_key@);
                        }
                        if c > i {
                            assert(self.roles@[i as int].key@ != role_key@);
                        }
                    }
                }
                let m = role.privileges.len();
                for p in 0..m
                    invariant
                        m == role.privileges@.len(),
                        *role == self.roles@[i as int],
                        role_key@ != ROLE_OWNER@,
                        first_role(self.roles@, role_key@) == Some(i as int),
                        forall|j: int| 0 <= j < p ==> role.privileges@[j]@ != privilege@,
                {
                    if str_eq(role.privileges[p].as_str(), privilege) {
                        proof {
                            assert(str_views(role.privileges@)[p as int] == privilege@);
                        }
                        return true;
                    }
                }
                proof {
                    if str_views(role.privileges@).contains(privilege@) {
                        let q = choose|q: int|
                            0 <= q < str_views(role.privileges@).len() && str_views(role.privileges@)[q]
                                == privilege@;
                        assert(role.privileges@[q]@ == privilege@);
                    }
                }
                return false;
            }
        }
        false
    }
}

/// An owner holds every privilege, whatever the ladder says or omits.
pub proof fn law_owner_holds_every_privilege(c: AccessConfig, subjects: Seq<Seq<char>>, privilege: Seq<char>)
    requires
        holds_ownership(c, subjects),
    ensures
        holds_privilege(c, subjects, privilege),
{
    let i = choose|i: int| 0 <= i < c.grants@.len() && owner_grant(c.grants@[i], subjects);
    assert(org_member_grant(c.grants@[i], subjects));
    assert(carries(c.roles@, c.grants@[i].role_key@, privilege));
}

/// Adding a login to the set can only add authority: whatever one set of a
/// person's subjects holds, a larger set holds too.
pub proof fn law_more_subjects_hold_no_less(
    c: AccessConfig,
    subjects: Seq<Seq<char>>,
    more: Seq<Seq<char>>,
    privilege: Seq<char>,
)
    requires
        forall|s: Seq<char>| subjects.contains(s) ==> more.contains(s),
    ensures
        holds_ownership(c, subjects) ==> holds_ownership(c, more),
        holds_privilege(c, subjects, privilege) ==> holds_privilege(c, more, privilege),
{
    if holds_ownership(c, subjects) {
        let i = choose|i: int| 0 <= i < c.grants@.len() && owner_grant(c.grants@[i], subjects);
        assert(owner_grant(c.grants@[i], more));
    }
    if holds_privilege(c, subjects, privilege) {
        let i = choose|i: int|
            0 <= i < c.grants@.len() && org_member_grant(c.grants@[i], subjects) && carries(
                c.roles@,
                c.grants@[i].role_key@,
                privilege,
            );
        assert(org_member_grant(c.grants@[i], more));
    }
}

/// Only a grant over the whole organization counts: a project-scoped grant
/// never gives a privilege, whoever holds it.
pub proof fn law_only_org_scope_counts(c: AccessConfig, subjects: Seq<Seq<char>>, privilege: Seq<char>)
    requires
        forall|i: int| 0 <= i < c.grants@.len() ==> c.grants@[i].scope_type@ != SCOPE_ORG@,
    ensures
        !holds_privilege(c, subjects, privilege),
        !holds_ownership(c, subjects),
{
}

/// The Studio privilege catalogue: each entry is one `(resource type,
/// action)` question the decision point can be asked.
pub const PRIVILEGES: [&'static str; 11] = [
    "people.view",
    "people.invite",
    "people.manage",
    "access.manage",
    "connector.view",
    "connector.manage",
    "secret.view",
    "secret.manage",
    "document.view",
    "document.edit",
    "session.open",
];

/// The privilege catalogue, as character sequences.
pub open spec fn privilege_catalogue() -> Seq<Seq<char>> {
    seq![
        "people.view"@,
        "people.invite"@,
        "people.manage"@,
        "access.manage"@,
        "connector.view"@,
        "connector.manage"@,
        "secret.view"@,
        "secret.manage"@,
        "document.view"@,
        "document.edit"@,
        "session.open"@,
    ]
}

/// A seeded role as the document writes it: its key, display name, the
/// `system` mark, and its privileges.
pub open spec fn seeded_role(j: Json, key: Seq<char>, name: Seq<char>, privileges: Seq<Seq<char>>) -> bool {
    &&& str_at(j, "key"@) == Some(key)
    &&& str_at(j, "name"@) == Some(name)
    &&& json_get(j, "system"@) matches Some(b) && json_bool(b) == Some(true)
    &&& json_get(j, "privileges"@) matches Some(p) && json_array(p) matches Some(ps) && ps.len() == privileges.len()
        && forall|i: int| 0 <= i < ps.len() ==> json_str(#[trigger] ps[i]) == Some(privileges[i])
}

fn str_json_array(items: &Vec<&'static str>) -> (out: Json)
    ensures
        json_array(out) matches Some(ps) && ps.len() == items@.len() && forall|i: int|
            0 <= i < ps.len() ==> json_str(#[trigger] ps[i]) == Some(items@[i]@),
        json_view(out) == JsonV::Array(items@.map_values(|p: &str| p@).map_values(|p: Seq<char>| JsonV::Str(p))),
{
    let n = items.len();
    let mut v: Vec<Json> = Vec::new();
    for i in 0..n
        invariant
            n == items@.len(),
            v@.len() == i,
            forall|k: int| 0 <= k < i ==> json_str(#[trigger] v@[k]) == Some(items@[k]@),
            json_views(v@) == items@.take(i as int).map_values(|p: &str| p@).map_values(|p: Seq<char>| JsonV::Str(p)),
    {
        let ghost before = v@;
        let item = Json::Str(items[i].to_owned());
        proof {
            assert(json_view(item) == JsonV::Str(items@[i as int]@));
        }
        v.push(item);
        proof {
            assert(v@.drop_last() == before);
            assert(v@.last() == item);
            assert(json_views(v@) == json_views(before).push(json_view(item)));
            assert(items@.take(i + 1).map_values(|p: &str| p@).map_values(|p: Seq<char>| JsonV::Str(p)) =~= items@.take(
                i as int,
            ).map_values(|p: &str| p@).map_values(|p: Seq<char>| JsonV::Str(p)).push(JsonV::Str(items@[i as int]@)));
        }
    }
    proof {
        assert(items@.take(n as int) == items@);
    }
    Json::Array(v)
}

fn role_json(key: &'static str, name: &'static str, privileges: &Vec<&'static str>) -> (out: Json)
    ensures
        seeded_role(out, key@, name@, privileges@.map_values(|p: &str| p@)),
        json_view(out) == role_view(key@, name@, privileges@.map_values(|p: &str| p@)),
{
    let ps = str_json_array(privileges);
    let members: Vec<(String, Json)> = vec![
        ("key".to_owned(), Json::Str(key.to_owned())),
        ("name".to_owned(), Json::Str(name.to_owned())),
        ("privileges".to_owned(), ps),
        ("system".to_owned(), Json::Bool(true)),
    ];
    proof {
        reveal_strlit("key");
        reveal_strlit("name");
        reveal_strlit("privileges");
        reveal_strlit("system");
        let m = members@;
        assert(m[0].0@ == "key"@);
        assert(m[1].0@ == "name"@);
        assert(m[2].0@ == "privileges"@);
        assert(m[3].0@ == "system"@);
        assert(member_from(m, "key"@, 0) == Some(m[0].1));
        assert("key"@ != "name"@);
        assert(member_from(m, "name"@, 1) == Some(m[1].1));
        assert(member_from(m, "name"@, 0) == Some(m[1].1));
        assert("key"@ != "privileges"@);
        assert("name"@ != "privileges"@);
        assert(member_from(m, "privileges"@, 2) == Some(m[2].1));
        assert(member_from(m, "privileges"@, 1) == Some(m[2].1));
        assert(member_from(m, "privileges"@, 0) == Some(m[2].1));
        assert("key"@ != "system"@);
        assert("name"@ != "system"@);
        assert("privileges"@ != "system"@);
        assert(member_from(m, "system"@, 3) == Some(m[3].1));
        assert(member_from(m, "system"@, 2) == Some(m[3].1));
        assert(member_from(m, "system"@, 1) == Some(m[3].1));
        assert(member_from(m, "system"@, 0) == Some(m[3].1));
        lemma_member_views_ext(m, seq![
            ("key"@, JsonV::Str(key@)),
            ("name"@, JsonV::Str(name@)),
            ("privileges"@, json_view(ps)),
            ("system"@, JsonV::Bool(true)),
        ]);
    }
    Json::Object(members)
}

/// The role ladder a fresh organization is seeded with, written into the
/// document rather than supplied by whoever reads it: `owner` with every
/// privilege, `admin` with all but `access.manage`, `editor`, and `viewer`
/// with the reads.
pub fn default_roles() -> (out: Json)
    ensures
        json_array(out) matches Some(rs) && rs.len() == 4
            && seeded_role(rs[0], ROLE_OWNER@, "Owner"@, privilege_catalogue())
            && seeded_role(rs[1], "admin"@, "Admin"@, privilege_catalogue().remove(3))
            && seeded_role(
                rs[2],
                "editor"@,
                "Editor"@,
                seq!["people.view"@, "document.view"@, "document.edit"@, "connector.view"@, "secret.view"@, "session.open"@],
            )
            && seeded_role(rs[3], "viewer"@, "Viewer"@, seq!["people.view"@, "connector.view"@, "secret.view"@, "document.view"@]),
        json_view(out) == default_roles_view(),
{
    let all: Vec<&'static str> = vec![
        "people.view",
        "people.invite",
        "people.manage",
        "access.manage",
        "connector.view",
        "connector.manage",
        "secret.view",
        "secret.manage",
        "document.view",
        "document.edit",
        "session.open",
    ];
    let admin: Vec<&'static str> = vec![
        "people.view",
        "people.invite",
        "people.manage",
        "connector.view",
        "connector.manage",
        "secret.view",
        "secret.manage",
        "document.view",
        "document.edit",
        "session.open",
    ];
    let editor: Vec<&'static str> = vec![
        "people.view",
        "document.view",
        "document.edit",
        "connector.view",
        "secret.view",
        "session.open",
    ];
    let viewer: Vec<&'static str> = vec!["people.view", "connector.view", "secret.view", "document.view"];
    proof {
        assert(all@.map_values(|p: &str| p@) =~= privilege_catalogue());
        assert(admin@.map_values(|p: &str| p@) =~= privilege_catalogue().remove(3));
        assert(editor@.map_values(|p: &str| p@) =~= seq!["people.view"@, "document.view"@, "document.edit"@, "connector.view"@, "secret.view"@, "session.open"@]);
        assert(viewer@.map_values(|p: &str| p@) =~= seq!["people.view"@, "connector.view"@, "secret.view"@, "document.view"@]);
    }
    let roles: Vec<Json> = vec![
        role_json(ROLE_OWNER, "Owner", &all),
        role_json("admin", "Admin", &admin),
        role_json("editor", "Editor", &editor),
        role_json("viewer", "Viewer", &viewer),
    ];
    proof {
        let r = roles@;
        lemma_json_views_ext(r, default_roles_view()->Array_0);
    }
    Json::Array(roles)
}

// ── the owner grant ──────────────────────────────────────────────────────────

/// A seeded role as a value: key, display name, privileges, `system`.
pub open spec fn role_view(key: Seq<char>, name: Seq<char>, privileges: Seq<Seq<char>>) -> JsonV {
    JsonV::Object(
        seq![
            ("key"@, JsonV::Str(key)),
            ("name"@, JsonV::Str(name)),
            ("privileges"@, JsonV::Array(privileges.map_values(|p: Seq<char>| JsonV::Str(p)))),
            ("system"@, JsonV::Bool(true)),
        ],
    )
}

/// The role ladder a fresh organization is seeded with, as a value.
pub open spec fn default_roles_view() -> JsonV {
    JsonV::Array(
        seq![
            role_view(ROLE_OWNER@, "Owner"@, privilege_catalogue()),
            role_view("admin"@, "Admin"@, privilege_catalogue().remove(3)),
            role_view(
                "editor"@,
                "Editor"@,
                seq!["people.view"@, "document.view"@, "document.edit"@, "connector.view"@, "secret.view"@, "session.open"@],
            ),
            role_view("viewer"@, "Viewer"@, seq!["people.view"@, "connector.view"@, "secret.view"@, "document.view"@]),
        ],
    )
}

/// A string member of an object value.
pub open spec fn field_str(g: JsonV, key: Seq<char>) -> Option<Seq<char>> {
    match g {
        JsonV::Object(m) => match vmap_get(m, key) {
            Some(JsonV::Str(s)) => Some(s),
            _ => None,
        },
        _ => None,
    }
}

/// A grant that makes `subject` an owner of the whole organization.
pub open spec fn is_owner_grant_for(g: JsonV, subject: Seq<char>) -> bool {
    &&& field_str(g, "subjectType"@) == Some(SUBJECT_MEMBER@)
    &&& field_str(g, "subjectId"@) == Some(subject)
    &&& field_str(g, "scopeType"@) == Some(SCOPE_ORG@)
    &&& field_str(g, "roleKey"@) == Some(ROLE_OWNER@)
}

/// The organization-wide owner grant for `subject`, its members in key
/// order.
pub open spec fn owner_grant_of(tenant_id: Seq<char>, tenant_name: Seq<char>, subject: Seq<char>, grant_id: Seq<char>) -> JsonV {
    JsonV::Object(
        seq![
            ("id"@, JsonV::Str(grant_id)),
            ("roleKey"@, JsonV::Str(ROLE_OWNER@)),
            ("scopeId"@, JsonV::Str(tenant_id)),
            ("scopeName"@, JsonV::Str(tenant_name)),
            ("scopeType"@, JsonV::Str(SCOPE_ORG@)),
            ("subjectId"@, JsonV::Str(subject)),
            ("subjectName"@, JsonV::Str(subject)),
            ("subjectType"@, JsonV::Str(SUBJECT_MEMBER@)),
        ],
    )
}

/// The grants other than `subject`'s organization-wide owner grants.
pub open spec fn kept_grants(gs: Seq<JsonV>, subject: Seq<char>) -> Seq<JsonV> {
    gs.filter(|g: JsonV| !is_owner_grant_for(g, subject))
}

/// A document written before the ladder was seeded: no roles, or none.
pub open spec fn roles_missing(m: VMap) -> bool {
    match vmap_get(m, "roles"@) {
        Some(JsonV::Array(rs)) => rs.len() == 0,
        _ => true,
    }
}

/// The access config an organization has before its first grant.
pub open spec fn fresh_access_config() -> JsonV {
    JsonV::Object(
        seq![("grants"@, JsonV::Array(seq![])), ("model"@, JsonV::Str("tenant"@)), ("roles"@, default_roles_view())],
    )
}

/// The access config with `subject`'s owner grant given (`owner`) or taken
/// away: its roles backfilled where it has none, every matching grant
/// removed, and a fresh one (`grant_id`) added when `owner`.
pub open spec fn owner_grant_update_of(
    config: JsonV,
    tenant_id: Seq<char>,
    tenant_name: Seq<char>,
    subject: Seq<char>,
    owner: bool,
    grant_id: Seq<char>,
) -> Result<JsonV, Seq<char>> {
    match config {
        JsonV::Object(m) => {
            let m1 = if roles_missing(m) {
                vmap_put(m, "roles"@, default_roles_view())
            } else {
                m
            };
            let m2 = if vmap_has(m1, "grants"@) {
                m1
            } else {
                vmap_put(m1, "grants"@, JsonV::Array(seq![]))
            };
            match vmap_get(m2, "grants"@) {
                Some(JsonV::Array(gs)) => {
                    let kept = kept_grants(gs, subject);
                    let all = if owner {
                        kept.push(owner_grant_of(tenant_id, tenant_name, subject, grant_id))
                    } else {
                        kept
                    };
                    Ok(JsonV::Object(vmap_put(m2, "grants"@, JsonV::Array(all))))
                },
                _ => Err("organization access grants are not an array"@),
            }
        },
        _ => Err("organization access config is not an object"@),
    }
}

proof fn lemma_get_first(m: VMap, key: Seq<char>, i: int)
    requires
        0 <= i < m.len(),
        m[i].0 == key,
        forall|t: int| 0 <= t < i ==> (#[trigger] m[t]).0 != key,
    ensures
        vmap_get(m, key) == Some(m[i].1),
    decreases i,
{
    if i > 0 {
        let d = m.drop_first();
        assert forall|t: int| 0 <= t < i - 1 implies (#[trigger] d[t]).0 != key by {
            assert(d[t] == m[t + 1]);
        }
        assert(d[i - 1] == m[i]);
        lemma_get_first(d, key, i - 1);
    }
}

/// Where the member `key` is, the first of that name.
fn find_member(m: &Vec<(String, Json)>, key: &str) -> (out: Option<usize>)
    ensures
        match out {
            Some(j) => j < m@.len() && vmap_get(member_views(m@), key@) == Some(json_view(m@[j as int].1)),
            None => vmap_get(member_views(m@), key@) is None,
        },
{
    let ghost mv = member_views(m@);
    proof {
        lemma_member_views_len(m@);
    }
    let n = m.len();
    for i in 0..n
        invariant
            n == m@.len(),
            mv == member_views(m@),
            mv.len() == n,
            forall|t: int| 0 <= t < i ==> (#[trigger] mv[t]).0 != key@,
    {
        proof {
            lemma_member_views_at(m@, i as int);
        }
        if str_eq(m[i].0.as_str(), key) {
            proof {
                lemma_get_first(mv, key@, i as int);
            }
            return Some(i);
        }
    }
    proof {
        lemma_get_none(mv, key@);
    }
    None
}

fn str_field_is(g: &Json, key: &str, want: &str) -> (r: bool)
    ensures
        r == (field_str(json_view(*g), key@) == Some(want@)),
{
    match g {
        Json::Object(gm) => match find_member(gm, key) {
            Some(j) => match &gm[j].1 {
                Json::Str(s) => str_eq(s.as_str(), want),
                _ => false,
            },
            None => false,
        },
        _ => false,
    }
}

fn is_owner_grant(g: &Json, subject: &str) -> (r: bool)
    ensures
        r == is_owner_grant_for(json_view(*g), subject@),
{
    str_field_is(g, "subjectType", SUBJECT_MEMBER) && str_field_is(g, "subjectId", subject) && str_field_is(
        g,
        "scopeType",
        SCOPE_ORG,
    ) && str_field_is(g, "roleKey", ROLE_OWNER)
}

fn owner_grant_json(tenant_id: &str, tenant_name: &str, subject: &str, grant_id: &str) -> (out: Json)
    ensures
        json_view(out) == owner_grant_of(tenant_id@, tenant_name@, subject@, grant_id@),
{
    let members: Vec<(String, Json)> = vec![
        ("id".to_string(), Json::Str(grant_id.to_string())),
        ("roleKey".to_string(), Json::Str(ROLE_OWNER.to_string())),
        ("scopeId".to_string(), Json::Str(tenant_id.to_string())),
        ("scopeName".to_string(), Json::Str(tenant_name.to_string())),
        ("scopeType".to_string(), Json::Str(SCOPE_ORG.to_string())),
        ("subjectId".to_string(), Json::Str(subject.to_string())),
        ("subjectName".to_string(), Json::Str(subject.to_string())),
        ("subjectType".to_string(), Json::Str(SUBJECT_MEMBER.to_string())),
    ];
    proof {
        lemma_member_views_ext(members@, owner_grant_of(tenant_id@, tenant_name@, subject@, grant_id@)->Object_0);
    }
    Json::Object(members)
}

/// Give `subject` the organization-wide owner grant, or take it away, in an
/// organization's access config (`None` where it has none yet). The grant
/// added gets `grant_id`.
pub fn owner_grant_update(
    config: Option<Json>,
    tenant_id: &str,
    tenant_name: &str,
    subject: &str,
    owner: bool,
    grant_id: &str,
) -> (out: Result<Json, String>)
    ensures
        ({
            let c = match config {
                Some(j) => json_view(j),
                None => fresh_access_config(),
            };
            match out {
                Ok(j) => owner_grant_update_of(c, tenant_id@, tenant_name@, subject@, owner, grant_id@) == Ok::<JsonV, Seq<char>>(json_view(j)),
                Err(e) => owner_grant_update_of(c, tenant_id@, tenant_name@, subject@, owner, grant_id@) == Err::<JsonV, Seq<char>>(e@),
            }
        }),
{
    let config = match config {
        Some(j) => j,
        None => {
            let members: Vec<(String, Json)> = vec![
                ("grants".to_string(), Json::Array(Vec::new())),
                ("model".to_string(), Json::Str("tenant".to_string())),
                ("roles".to_string(), default_roles()),
            ];
            proof {
                assert(json_views(Seq::<Json>::empty()) =~= Seq::<JsonV>::empty());
                lemma_member_views_ext(members@, fresh_access_config()->Object_0);
            }
            Json::Object(members)
        },
    };
    let ghost c = json_view(config);
    let mut m = match config {
        Json::Object(m) => m,
        _ => {
            return Err("organization access config is not an object".to_string());
        },
    };
    let missing = match find_member(&m, "roles") {
        Some(j) => match &m[j].1 {
            Json::Array(rs) => {
                proof {
                    lemma_json_views_len(rs@);
                }
                rs.len() == 0
            },
            _ => true,
        },
        None => true,
    };
    if missing {
        map_put(&mut m, "roles".to_string(), default_roles());
    }
    if !has_key(&m, "grants") {
        map_put(&mut m, "grants".to_string(), Json::Array(Vec::new()));
        proof {
            assert(json_views(Seq::<Json>::empty()) =~= Seq::<JsonV>::empty());
        }
    }
    let ghost m2 = member_views(m@);
    let grants = match find_member(&m, "grants") {
        Some(j) => match &m[j].1 {
            Json::Array(gs) => {
                let ghost gv = json_views(gs@);
                let ghost pred = |g: JsonV| !is_owner_grant_for(g, subject@);
                let mut kept: Vec<Json> = Vec::new();
                let n = gs.len();
                proof {
                    lemma_json_views_len(gs@);
                    reveal(Seq::filter);
                    assert(gv.take(0) =~= Seq::<JsonV>::empty());
                }
                for i in 0..n
                    invariant
                        n == gs@.len(),
                        gv == json_views(gs@),
                        gv.len() == n,
                        json_views(kept@) == gv.take(i as int).filter(|g: JsonV| !is_owner_grant_for(g, subject@)),
                {
                    proof {
                        reveal(Seq::filter);
                        lemma_json_views_at(gs@, i as int);
                        assert(gv.take(i + 1).drop_last() == gv.take(i as int));
                        assert(gv.take(i + 1).last() == gv[i as int]);
                    }
                    if !is_owner_grant(&gs[i], subject) {
                        let ghost before = kept@;
                        let g = gs[i].copy();
                        kept.push(g);
                        proof {
                            assert(kept@.drop_last() == before);
                        }
                    }
                }
                proof {
                    assert(gv.take(n as int) == gv);
                }
                if owner {
                    let ghost before = kept@;
                    let g = owner_grant_json(tenant_id, tenant_name, subject, grant_id);
                    kept.push(g);
                    proof {
                        assert(kept@.drop_last() == before);
                    }
                }
                kept
            },
            _ => {
                return Err("organization access grants are not an array".to_string());
            },
        },
        None => {
            return Err("organization access grants are not an array".to_string());
        },
    };
    map_put(&mut m, "grants".to_string(), Json::Array(grants));
    Ok(Json::Object(m))
}

proof fn lemma_put_same(m: VMap, k: Seq<char>, v: JsonV)
    requires
        vsorted(m),
        vmap_get(m, k) == Some(v),
    ensures
        vmap_put(m, k, v) == m,
{
    lemma_get_some(m, k);
    let t = choose|t: int| 0 <= t < m.len() && (#[trigger] m[t]).0 == k;
    let i = vput_at(m, k);
    lemma_vput_at(m, k);
    lemma_seq_lt_irreflexive(k);
    if t < i {
        assert(seq_lt(m[t].0, k));
    }
    if t > i {
        assert(seq_lt(m[i].0, m[t].0));
    }
    assert(t == i);
    lemma_get_at(m, t);
    assert(m.update(i, (k, v)) =~= m);
}

proof fn lemma_filter_all(s: Seq<JsonV>, subject: Seq<char>)
    requires
        forall|i: int| 0 <= i < s.len() ==> !is_owner_grant_for(#[trigger] s[i], subject),
    ensures
        kept_grants(s, subject) == s,
    decreases s.len(),
{
    reveal(Seq::filter);
    if s.len() > 0 {
        let d = s.drop_last();
        assert forall|i: int| 0 <= i < d.len() implies !is_owner_grant_for(#[trigger] d[i], subject) by {
            assert(d[i] == s[i]);
        }
        lemma_filter_all(d, subject);
        assert(!is_owner_grant_for(s[s.len() - 1], subject));
        assert(d.push(s.last()) =~= s);
    }
}

proof fn lemma_kept_grants(gs: Seq<JsonV>, subject: Seq<char>)
    ensures
        forall|i: int|
            0 <= i < kept_grants(gs, subject).len() ==> !is_owner_grant_for(#[trigger] kept_grants(gs, subject)[i], subject),
{
    let pred = |g: JsonV| !is_owner_grant_for(g, subject);
    assert forall|i: int| 0 <= i < gs.filter(pred).len() implies !is_owner_grant_for(#[trigger] gs.filter(pred)[i], subject) by {
        gs.lemma_filter_pred(pred, i);
    }
}

proof fn lemma_new_grant_is_owner(tenant_id: Seq<char>, tenant_name: Seq<char>, subject: Seq<char>, grant_id: Seq<char>)
    ensures
        is_owner_grant_for(owner_grant_of(tenant_id, tenant_name, subject, grant_id), subject),
{
    reveal_strlit("id");
    reveal_strlit("roleKey");
    reveal_strlit("scopeId");
    reveal_strlit("scopeName");
    reveal_strlit("scopeType");
    reveal_strlit("subjectId");
    reveal_strlit("subjectName");
    reveal_strlit("subjectType");
    let m = owner_grant_of(tenant_id, tenant_name, subject, grant_id)->Object_0;
    assert("subjectName"@[7] != "subjectType"@[7]);
    assert("subjectId"@[7] != "subjectType"@[7]);
    assert("scopeName"@[1] != "subjectType"@[1]);
    assert("scopeType"@[1] != "subjectType"@[1]);
    assert("scopeId"@[1] != "subjectType"@[1]);
    lemma_get_first(m, "subjectType"@, 7);
    assert("scopeName"@[1] != "subjectId"@[1]);
    assert("scopeType"@[1] != "subjectId"@[1]);
    assert("scopeId"@[1] != "subjectId"@[1]);
    lemma_get_first(m, "subjectId"@, 5);
    assert("scopeId"@[5] != "scopeType"@[5]);
    assert("scopeName"@[5] != "scopeType"@[5]);
    lemma_get_first(m, "scopeType"@, 4);
    assert("id"@.len() != "roleKey"@.len());
    assert(m[0].0 != "roleKey"@);
    lemma_get_first(m, "roleKey"@, 1);
}

/// Taking the owner grant away leaves `subject` no organization-wide owner
/// grant.
pub proof fn law_revoking_leaves_no_owner_grant(
    config: JsonV,
    tenant_id: Seq<char>,
    tenant_name: Seq<char>,
    subject: Seq<char>,
    grant_id: Seq<char>,
)
    requires
        config matches JsonV::Object(m) && vsorted(m),
    ensures
        owner_grant_update_of(config, tenant_id, tenant_name, subject, false, grant_id) matches Ok(out) ==> (
        out matches JsonV::Object(r) && vmap_get(r, "grants"@) matches Some(JsonV::Array(gs)) && forall|i: int|
            0 <= i < gs.len() ==> !is_owner_grant_for(#[trigger] gs[i], subject)),
{
    let m = config->Object_0;
    let m1 = if roles_missing(m) {
        vmap_put(m, "roles"@, default_roles_view())
    } else {
        m
    };
    lemma_vmap_put(m, "roles"@, default_roles_view());
    let m2 = if vmap_has(m1, "grants"@) {
        m1
    } else {
        vmap_put(m1, "grants"@, JsonV::Array(seq![]))
    };
    lemma_vmap_put(m1, "grants"@, JsonV::Array(seq![]));
    if let Some(JsonV::Array(gs)) = vmap_get(m2, "grants"@) {
        let kept = kept_grants(gs, subject);
        lemma_vmap_put(m2, "grants"@, JsonV::Array(kept));
        lemma_kept_grants(gs, subject);
    }
}

/// Giving the owner grant leaves exactly one organization-wide owner grant
/// for `subject`, the one given, after every other grant.
pub proof fn law_granting_leaves_one_owner_grant(
    config: JsonV,
    tenant_id: Seq<char>,
    tenant_name: Seq<char>,
    subject: Seq<char>,
    grant_id: Seq<char>,
)
    requires
        config matches JsonV::Object(m) && vsorted(m),
    ensures
        owner_grant_update_of(config, tenant_id, tenant_name, subject, true, grant_id) matches Ok(out) ==> (
        out matches JsonV::Object(r) && vmap_get(r, "grants"@) matches Some(JsonV::Array(gs)) && gs.len() > 0
            && gs.last() == owner_grant_of(tenant_id, tenant_name, subject, grant_id) && is_owner_grant_for(
            gs.last(),
            subject,
        ) && forall|i: int| 0 <= i < gs.len() - 1 ==> !is_owner_grant_for(#[trigger] gs[i], subject)),
{
    let m = config->Object_0;
    let m1 = if roles_missing(m) {
        vmap_put(m, "roles"@, default_roles_view())
    } else {
        m
    };
    lemma_vmap_put(m, "roles"@, default_roles_view());
    let m2 = if vmap_has(m1, "grants"@) {
        m1
    } else {
        vmap_put(m1, "grants"@, JsonV::Array(seq![]))
    };
    lemma_vmap_put(m1, "grants"@, JsonV::Array(seq![]));
    if let Some(JsonV::Array(gs)) = vmap_get(m2, "grants"@) {
        let kept = kept_grants(gs, subject);
        let new = owner_grant_of(tenant_id, tenant_name, subject, grant_id);
        let all = kept.push(new);
        lemma_vmap_put(m2, "grants"@, JsonV::Array(all));
        lemma_kept_grants(gs, subject);
        lemma_new_grant_is_owner(tenant_id, tenant_name, subject, grant_id);
        assert forall|i: int| 0 <= i < all.len() - 1 implies !is_owner_grant_for(#[trigger] all[i], subject) by {
            assert(all[i] == kept[i]);
        }
    }
}

/// Setting the owner grant is idempotent: doing it a second time, with the
/// same arguments, changes nothing.
pub proof fn law_setting_the_owner_grant_twice_changes_nothing(
    config: JsonV,
    tenant_id: Seq<char>,
    tenant_name: Seq<char>,
    subject: Seq<char>,
    owner: bool,
    grant_id: Seq<char>,
)
    requires
        config matches JsonV::Object(m) && vsorted(m),
    ensures
        owner_grant_update_of(config, tenant_id, tenant_name, subject, owner, grant_id) matches Ok(once)
            ==> owner_grant_update_of(once, tenant_id, tenant_name, subject, owner, grant_id) == Ok::<
            JsonV,
            Seq<char>,
        >(once),
{
    reveal_strlit("roles");
    reveal_strlit("grants");
    assert("roles"@ != "grants"@) by {
        assert("roles"@[0] != "grants"@[0]);
    }
    let m = config->Object_0;
    let m1 = if roles_missing(m) {
        vmap_put(m, "roles"@, default_roles_view())
    } else {
        m
    };
    lemma_vmap_put(m, "roles"@, default_roles_view());
    let m2 = if vmap_has(m1, "grants"@) {
        m1
    } else {
        vmap_put(m1, "grants"@, JsonV::Array(seq![]))
    };
    lemma_vmap_put(m1, "grants"@, JsonV::Array(seq![]));
    if let Some(JsonV::Array(gs)) = vmap_get(m2, "grants"@) {
        let pred = |g: JsonV| !is_owner_grant_for(g, subject);
        let kept = kept_grants(gs, subject);
        let new = owner_grant_of(tenant_id, tenant_name, subject, grant_id);
        let all = if owner {
            kept.push(new)
        } else {
            kept
        };
        let r = vmap_put(m2, "grants"@, JsonV::Array(all));
        lemma_vmap_put(m2, "grants"@, JsonV::Array(all));
        // the second call finds the roles it left and the grants it wrote
        assert(!roles_missing(r));
        lemma_get_some(r, "grants"@);
        assert(vmap_has(r, "grants"@));
        lemma_kept_grants(gs, subject);
        lemma_filter_all(kept, subject);
        if owner {
            lemma_new_grant_is_owner(tenant_id, tenant_name, subject, grant_id);
            reveal(Seq::filter);
            assert(all.drop_last() == kept);
            assert(kept_grants(all, subject) == kept_grants(kept, subject));
        }
        assert(kept_grants(all, subject) == kept);
        lemma_put_same(r, "grants"@, JsonV::Array(all));
    }
}

} // verus!
