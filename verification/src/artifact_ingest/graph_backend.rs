//! What a node carries into the graph store: its name, a payload kept under
//! the store's per-node ceiling with a bounded excerpt of a file's text, and
//! how long a tenant's type registration is taken as still true.

use std::collections::HashMap;
use vstd::prelude::*;
use vstd::utf8::encode_utf8;

use crate::components_catalog::activity::now_unix_secs;
use crate::components_catalog::values::{map_put, vmap_get, vmap_put, VMap};
use crate::json::{json_get, json_view, json_written, member_views, str_at, write_json, Json, JsonV};
use crate::text::{chars_of, is_blank, slice_of, str_eq, string_of, trim};

verus! {

/// A node payload is kept comfortably under the store's 64 KiB ceiling; an
/// oversized one would fail the whole atomic batch.
pub const MAX_PAYLOAD_BYTES: usize = 60000;

/// How much of a file's text travels into the graph as `text_excerpt`.
pub const MAX_TEXT_EXCERPT_CHARS: usize = 8000;

/// How long, in seconds, a tenant's type registration is taken as still true.
pub const TYPE_REGISTRATION_TTL_SECS: u64 = 600;

/// The first `max_chars` characters of `s`.
pub open spec fn excerpt_of(s: Seq<char>, max_chars: nat) -> Seq<char> {
    if s.len() > max_chars {
        s.take(max_chars as int)
    } else {
        s
    }
}

/// Truncate `s` to at most `max_chars` characters.
pub fn excerpt(s: &str, max_chars: usize) -> (out: String)
    ensures
        out@ == excerpt_of(s@, max_chars as nat),
{
    let v = chars_of(s);
    let end = if v.len() > max_chars {
        max_chars
    } else {
        v.len()
    };
    let part = slice_of(&v, 0, end);
    proof {
        assert(v@.subrange(0, end as int) == excerpt_of(s@, max_chars as nat));
    }
    string_of(&part)
}

/// A human name for a node: its title, else its path, else its full path.
pub open spec fn node_name_of(value: Json) -> Seq<char> {
    match str_at(value, "title"@) {
        Some(t) => t,
        None => match str_at(value, "path"@) {
            Some(p) => p,
            None => match str_at(value, "full_path"@) {
                Some(f) => f,
                None => seq![],
            },
        },
    }
}

/// A human name for the node, from the fields ingestion normalises.
pub fn node_name(value: &Json) -> (out: String)
    ensures
        out@ == node_name_of(*value),
{
    match value.str_at("title") {
        Some(t) => t.to_string(),
        None => match value.str_at("path") {
            Some(p) => p.to_string(),
            None => match value.str_at("full_path") {
                Some(f) => f.to_string(),
                None => {
                    proof {
                        reveal_strlit("");
                    }
                    String::new()
                },
            },
        },
    }
}

/// The members of a map other than `key`.
pub open spec fn vmap_remove(m: VMap, key: Seq<char>) -> VMap {
    m.filter(|e: (Seq<char>, JsonV)| e.0 != key)
}

/// The members a payload keeps as a last resort: those that identify it.
pub open spec fn identifying(key: Seq<char>) -> bool {
    key == "repo"@ || key == "external_id"@ || key == "number"@ || key == "path"@ || key == "url"@
        || key == "state"@
}

/// Whether an object's compact JSON is over the payload ceiling.
pub open spec fn too_big(m: VMap) -> bool {
    encode_utf8(json_written(JsonV::Object(m))).len() > MAX_PAYLOAD_BYTES
}

/// The payload to store: the node's members without the file's text, plus
/// a bounded `text_excerpt` of a text that is not blank; then, while still
/// over the ceiling, without the excerpt, then without `body`, then with
/// only the identifying members.
pub open spec fn bounded_of(value: Json) -> JsonV {
    let m0 = match value {
        Json::Object(m) => member_views(m@),
        _ => seq![],
    };
    let m1 = vmap_remove(m0, "text"@);
    let m2 = match json_get(value, "text"@) {
        Some(Json::Str(t)) => if trim(t@).len() > 0 {
            vmap_put(m1, "text_excerpt"@, JsonV::Str(excerpt_of(t@, MAX_TEXT_EXCERPT_CHARS as nat)))
        } else {
            m1
        },
        _ => m1,
    };
    let m3 = if too_big(m2) {
        vmap_remove(m2, "text_excerpt"@)
    } else {
        m2
    };
    let m4 = if too_big(m3) {
        vmap_remove(m3, "body"@)
    } else {
        m3
    };
    let m5 = if too_big(m4) {
        m4.filter(|e: (Seq<char>, JsonV)| identifying(e.0))
    } else {
        m4
    };
    JsonV::Object(m5)
}

proof fn lemma_member_views_push(m: Seq<(String, Json)>, x: (String, Json))
    ensures
        member_views(m.push(x)) == member_views(m).push((x.0@, json_view(x.1))),
{
    assert(m.push(x).drop_last() == m);
}

/// The members of `m` other than `key`, as a new object.
fn without(m: &Vec<(String, Json)>, key: &str) -> (out: Vec<(String, Json)>)
    ensures
        member_views(out@) == vmap_remove(member_views(m@), key@),
{
    let n = m.len();
    let mut out: Vec<(String, Json)> = Vec::new();
    let ghost mv = member_views(m@);
    for i in 0..n
        invariant
            n == m@.len(),
            mv == member_views(m@),
            member_views(out@) == vmap_remove(mv.take(i as int), key@),
    {
        proof {
            assert(m@.take(i + 1).drop_last() == m@.take(i as int));
            assert(member_views(m@.take(i + 1)) == member_views(m@.take(i as int)).push((m@[i as int].0@, json_view(m@[i as int].1))));
            lemma_take_views(m@, i as int);
            lemma_take_views(m@, i + 1);
            assert(mv.take(i + 1) == mv.take(i as int).push((m@[i as int].0@, json_view(m@[i as int].1))));
            assert(mv.take(i + 1).drop_last() == mv.take(i as int));
        }
        let keep = !str_eq(m[i].0.as_str(), key);
        let ghost before = out@;
        let ghost e = (m@[i as int].0@, json_view(m@[i as int].1));
        proof {
            reveal(Seq::filter);
            assert(mv.take(i + 1).last() == e);
            assert(vmap_remove(mv.take(i + 1), key@) == if e.0 != key@ {
                vmap_remove(mv.take(i as int), key@).push(e)
            } else {
                vmap_remove(mv.take(i as int), key@)
            });
        }
        if keep {
            let k2 = m[i].0.clone();
            let v2 = m[i].1.copy();
            proof {
                assert(k2@ == m@[i as int].0@);
            }
            out.push((k2, v2));
            proof {
                lemma_member_views_push(before, (k2, v2));
                assert(out@ == before.push((k2, v2)));
            }
        }
    }
    proof {
        assert(m@.take(n as int) == m@);
        lemma_take_views(m@, n as int);
    }
    out
}

proof fn lemma_take_views(m: Seq<(String, Json)>, i: int)
    requires
        0 <= i <= m.len(),
    ensures
        member_views(m.take(i)) == member_views(m).take(i),
        member_views(m).len() == m.len(),
    decreases m.len(),
{
    lemma_views_len(m);
    if i < m.len() {
        lemma_take_views(m.drop_last(), i);
        assert(m.drop_last().take(i) == m.take(i));
        assert(member_views(m).take(i) == member_views(m.drop_last()).take(i));
    } else {
        assert(m.take(i) == m);
        assert(member_views(m).take(i) == member_views(m));
    }
}

proof fn lemma_views_len(m: Seq<(String, Json)>)
    ensures
        member_views(m).len() == m.len(),
    decreases m.len(),
{
    if m.len() > 0 {
        lemma_views_len(m.drop_last());
    }
}

fn is_identifying(k: &str) -> (r: bool)
    ensures
        r == identifying(k@),
{
    str_eq(k, "repo") || str_eq(k, "external_id") || str_eq(k, "number") || str_eq(k, "path") || str_eq(k, "url")
        || str_eq(k, "state")
}

/// The identifying members of `m` alone.
fn only_identifying(m: &Vec<(String, Json)>) -> (out: Vec<(String, Json)>)
    ensures
        member_views(out@) == member_views(m@).filter(|e: (Seq<char>, JsonV)| identifying(e.0)),
{
    let n = m.len();
    let mut out: Vec<(String, Json)> = Vec::new();
    let ghost mv = member_views(m@);
    proof {
        lemma_take_views(m@, 0);
        reveal(Seq::filter);
    }
    for i in 0..n
        invariant
            n == m@.len(),
            mv == member_views(m@),
            member_views(out@) == mv.take(i as int).filter(|e: (Seq<char>, JsonV)| identifying(e.0)),
    {
        proof {
            assert(m@.take(i + 1).drop_last() == m@.take(i as int));
            lemma_take_views(m@, i as int);
            lemma_take_views(m@, i + 1);
            assert(mv.take(i + 1) == mv.take(i as int).push((m@[i as int].0@, json_view(m@[i as int].1))));
        }
        let keep = is_identifying(m[i].0.as_str());
        let ghost before = out@;
        let ghost e = (m@[i as int].0@, json_view(m@[i as int].1));
        proof {
            reveal(Seq::filter);
            assert(mv.take(i + 1).drop_last() == mv.take(i as int));
            assert(mv.take(i + 1).last() == e);
        }
        if keep {
            let k2 = m[i].0.clone();
            let v2 = m[i].1.copy();
            out.push((k2, v2));
            proof {
                lemma_member_views_push(before, (k2, v2));
                assert(out@ == before.push((k2, v2)));
            }
        }
    }
    proof {
        assert(m@.take(n as int) == m@);
        lemma_take_views(m@, n as int);
    }
    out
}

fn too_big_exec(m: Vec<(String, Json)>) -> (out: (bool, Vec<(String, Json)>))
    ensures
        out.1 == m,
        out.0 == too_big(member_views(m@)),
{
    let probe = Json::Object(m);
    let text = write_json(&probe);
    let big = text.as_str().as_bytes().len() > MAX_PAYLOAD_BYTES;
    match probe {
        Json::Object(back) => (big, back),
        _ => (big, Vec::new()),
    }
}

/// The payload to store: the node value without the file's content, plus a
/// bounded `text_excerpt` of that content, under the per-node ceiling
/// (dropping the excerpt, then `body`, then all but the identifying members
/// while it is over).
pub fn bounded_payload(value: &Json) -> (out: Json)
    ensures
        json_view(out) == bounded_of(*value),
{
    let empty: Vec<(String, Json)> = Vec::new();
    let m0: &Vec<(String, Json)> = match value {
        Json::Object(m) => m,
        _ => &empty,
    };
    proof {
        assert(member_views(empty@) =~= Seq::<(Seq<char>, JsonV)>::empty());
    }
    let mut obj = without(m0, "text");
    match value.get("text") {
        Some(Json::Str(t)) => {
            if !is_blank(t.as_str()) {
                map_put(&mut obj, "text_excerpt".to_string(), Json::Str(excerpt(t.as_str(), MAX_TEXT_EXCERPT_CHARS)));
            }
        },
        _ => {},
    }
    let (big, back) = too_big_exec(obj);
    obj = back;
    if big {
        obj = without(&obj, "text_excerpt");
    }
    let (big, back) = too_big_exec(obj);
    obj = back;
    if big {
        obj = without(&obj, "body");
    }
    let (big, back) = too_big_exec(obj);
    obj = back;
    if big {
        obj = only_identifying(&obj);
    }
    Json::Object(obj)
}

/// Whether a registration made at `at` (seconds) is still taken as true at
/// `now`: less than the TTL has passed, or the clock reads earlier than it.
pub open spec fn still_fresh(at: u64, now: u64) -> bool {
    now < at + TYPE_REGISTRATION_TTL_SECS
}

/// The freshness rule, over the map alone, at a given time: a tenant is
/// fresh when it was registered less than the TTL ago; an expired entry is
/// forgotten on the way past.
pub fn registration_is_fresh_at(registered: &mut HashMap<u128, u64>, tenant: u128, now: u64) -> (fresh: bool)
    ensures
        fresh == (old(registered)@.contains_key(tenant) && still_fresh(old(registered)@[tenant], now)),
        fresh ==> final(registered)@ == old(registered)@,
        !fresh ==> final(registered)@ == old(registered)@.remove(tenant),
{
    broadcast use vstd::std_specs::hash::group_hash_axioms;

    let at: u64 = match registered.get(&tenant) {
        Some(at) => *at,
        None => {
            proof {
                assert(registered@.remove(tenant) =~= registered@);
            }
            return false;
        },
    };
    if now < at || now - at < TYPE_REGISTRATION_TTL_SECS {
        true
    } else {
        registered.remove(&tenant);
        false
    }
}

/// The freshness rule at the moment of the call: a tenant is fresh only when
/// it holds a registration, and then the map is left as it was; otherwise
/// the tenant is no longer in the map. Which of the two comes out for a
/// registered tenant depends on the clock.
pub fn registration_is_fresh_in(registered: &mut HashMap<u128, u64>, tenant: u128) -> (fresh: bool)
    ensures
        fresh ==> old(registered)@.contains_key(tenant) && final(registered)@ == old(registered)@,
        !fresh ==> final(registered)@ == old(registered)@.remove(tenant),
        !old(registered)@.contains_key(tenant) ==> !fresh,
{
    let now = now_unix_secs();
    registration_is_fresh_at(registered, tenant, now)
}

} // verus!
