//! JSON as plain values: what the library reads out of a parsed document and
//! what it builds for one, with `serde_json` doing the parsing.

use vstd::prelude::*;
use vstd::string::StrSliceExecFns;
use vstd::utf8::encode_utf8;

use crate::numbers::{all_digits, digits_in, digits_value, parse_i64, parse_i64_in};
use crate::text::str_eq;

verus! {

/// A JSON value. An object's members are in the order `serde_json` keeps
/// them (ascending by key, each key once); a number is the text `serde_json`
/// writes for it.
#[derive(Debug, PartialEq)]
pub enum Json {
    Null,
    Bool(bool),
    Number(String),
    Str(String),
    Array(Vec<Json>),
    Object(Vec<(String, Json)>),
}

/// The first member of `m` at or after `i` named `key`.
pub open spec fn member_from(m: Seq<(String, Json)>, key: Seq<char>, i: nat) -> Option<Json>
    decreases m.len() - i,
{
    if i >= m.len() {
        None
    } else if m[i as int].0@ == key {
        Some(m[i as int].1)
    } else {
        member_from(m, key, i + 1)
    }
}

/// `value.get(key)`: the member of an object, `None` for anything else.
pub open spec fn json_get(j: Json, key: Seq<char>) -> Option<Json> {
    match j {
        Json::Object(m) => member_from(m@, key, 0),
        _ => None,
    }
}

/// `value.as_str()`.
pub open spec fn json_str(j: Json) -> Option<Seq<char>> {
    match j {
        Json::Str(s) => Some(s@),
        _ => None,
    }
}

/// `value.as_bool()`.
pub open spec fn json_bool(j: Json) -> Option<bool> {
    match j {
        Json::Bool(b) => Some(b),
        _ => None,
    }
}

/// `value.as_array()`.
pub open spec fn json_array(j: Json) -> Option<Seq<Json>> {
    match j {
        Json::Array(a) => Some(a@),
        _ => None,
    }
}

/// `value.as_u64()`: a number written as plain decimal digits that fits.
pub open spec fn json_u64(j: Json) -> Option<u64> {
    match j {
        Json::Number(t) => {
            let bs = encode_utf8(t@);
            if bs.len() > 0 && all_digits(bs) && digits_value(bs) <= u64::MAX {
                Some(digits_value(bs) as u64)
            } else {
                None
            }
        },
        _ => None,
    }
}

/// `value.as_i64()`: a number written as an integer that fits.
pub open spec fn json_i64(j: Json) -> Option<int> {
    match j {
        Json::Number(t) => parse_i64(encode_utf8(t@)),
        _ => None,
    }
}

/// `get(key)` then `as_str()`.
pub open spec fn str_at(j: Json, key: Seq<char>) -> Option<Seq<char>> {
    match json_get(j, key) {
        Some(v) => json_str(v),
        None => None,
    }
}

impl Json {
    /// `value.get(key)`.
    pub fn get(&self, key: &str) -> (out: Option<&Json>)
        ensures
            match out {
                Some(v) => json_get(*self, key@) == Some(*v),
                None => json_get(*self, key@) is None,
            },
    {
        match self {
            Json::Object(m) => {
                let n = m.len();
                let mut i: usize = 0;
                while i < n
                    invariant
                        n == m@.len(),
                        i <= n,
                        json_get(*self, key@) == member_from(m@, key@, 0),
                        member_from(m@, key@, 0) == member_from(m@, key@, i as nat),
                    decreases n - i,
                {
                    if str_eq(m[i].0.as_str(), key) {
                        proof {
                            assert(m@[i as int].0@ == key@);
                            assert(member_from(m@, key@, i as nat) == Some(m@[i as int].1));
                        }
                        return Some(&m[i].1);
                    }
                    i = i + 1;
                }
                None
            },
            _ => None,
        }
    }

    /// `value.as_str()`.
    pub fn as_str(&self) -> (out: Option<&str>)
        ensures
            match out {
                Some(s) => json_str(*self) == Some(s@),
                None => json_str(*self) is None,
            },
    {
        match self {
            Json::Str(s) => Some(s.as_str()),
            _ => None,
        }
    }

    /// `value.as_bool()`.
    pub fn as_bool(&self) -> (out: Option<bool>)
        ensures
            out == json_bool(*self),
    {
        match self {
            Json::Bool(b) => Some(*b),
            _ => None,
        }
    }

    /// `value.as_array()`.
    pub fn as_array(&self) -> (out: Option<&Vec<Json>>)
        ensures
            match out {
                Some(a) => json_array(*self) == Some(a@),
                None => json_array(*self) is None,
            },
    {
        match self {
            Json::Array(a) => Some(a),
            _ => None,
        }
    }

    /// `value.is_object()`.
    pub fn is_object(&self) -> (out: bool)
        ensures
            out == (*self is Object),
    {
        match self {
            Json::Object(_) => true,
            _ => false,
        }
    }

    /// `value.as_u64()`.
    pub fn as_u64(&self) -> (out: Option<u64>)
        ensures
            out == json_u64(*self),
    {
        match self {
            Json::Number(t) => {
                let bs = t.as_str().as_bytes();
                match digits_in(bs, 0, bs.len(), 18446744073709551615u64) {
                    Some(v) => {
                        proof {
                            assert(bs@.subrange(0, bs@.len() as int) == bs@);
                        }
                        Some(v)
                    },
                    None => {
                        proof {
                            assert(bs@.subrange(0, bs@.len() as int) == bs@);
                        }
                        None
                    },
                }
            },
            _ => None,
        }
    }

    /// `value.as_i64()`.
    pub fn as_i64(&self) -> (out: Option<i64>)
        ensures
            match out {
                Some(v) => json_i64(*self) == Some(v as int),
                None => json_i64(*self) is None,
            },
    {
        match self {
            Json::Number(t) => {
                let bs = t.as_str().as_bytes();
                proof {
                    assert(bs@.subrange(0, bs@.len() as int) == bs@);
                }
                parse_i64_in(bs, 0, bs.len())
            },
            _ => None,
        }
    }

    /// One JSON document read from text: `serde_json`'s reading of it, or
    /// `None` where that reports an error.
    pub fn parse(text: &str) -> (out: Option<Json>)
        ensures
            out == json_parsed(text@),
    {
        parse_json(text)
    }

    /// `get(key)` then `as_str()`.
    pub fn str_at(&self, key: &str) -> (out: Option<&str>)
        ensures
            match out {
                Some(s) => str_at(*self, key@) == Some(s@),
                None => str_at(*self, key@) is None,
            },
    {
        match self.get(key) {
            Some(v) => v.as_str(),
            None => None,
        }
    }
}

/// What `serde_json::from_str::<serde_json::Value>` makes of this text, as
/// a [`Json`]; `None` when it is not one JSON document.
pub uninterp spec fn json_parsed(text: Seq<char>) -> Option<Json>;

#[verifier::external_type_specification]
#[verifier::external_body]
pub struct ExJsonValue(serde_json::Value);

/// `serde_json::Value` as a [`Json`], member for member: the variant kept,
/// a number as the text `serde_json` writes for it, an array's items and an
/// object's members (in the map's order) converted in turn. Nothing is
/// claimed of the result; [`parse_json`] names it.
#[verifier::external_body]
fn json_of_value(v: serde_json::Value) -> Json {
    match v {
        serde_json::Value::Null => Json::Null,
        serde_json::Value::Bool(b) => Json::Bool(b),
        serde_json::Value::Number(n) => Json::Number(n.to_string()),
        serde_json::Value::String(s) => Json::Str(s),
        serde_json::Value::Array(a) => Json::Array(a.into_iter().map(json_of_value).collect()),
        serde_json::Value::Object(m) => Json::Object(m.into_iter().map(|(k, v)| (k, json_of_value(v))).collect()),
    }
}

/// `serde_json::from_str::<serde_json::Value>(text)`, converted. The result
/// is named, not stated: it is `json_parsed` of the text, `None` where
/// `serde_json` reports an error.
#[verifier::external_body]
pub(crate) fn parse_json(text: &str) -> (out: Option<Json>)
    ensures
        out == json_parsed(text@),
{
    serde_json::from_str::<serde_json::Value>(text).ok().map(json_of_value)
}

/// A JSON value as a mathematical value: strings as character sequences.
pub enum JsonV {
    Null,
    Bool(bool),
    Number(Seq<char>),
    Str(Seq<char>),
    Array(Seq<JsonV>),
    Object(Seq<(Seq<char>, JsonV)>),
}

/// The value a [`Json`] holds.
pub open spec fn json_view(j: Json) -> JsonV
    decreases j,
{
    match j {
        Json::Null => JsonV::Null,
        Json::Bool(b) => JsonV::Bool(b),
        Json::Number(t) => JsonV::Number(t@),
        Json::Str(s) => JsonV::Str(s@),
        Json::Array(a) => JsonV::Array(json_views(a@)),
        Json::Object(m) => JsonV::Object(member_views(m@)),
    }
}

pub open spec fn json_views(s: Seq<Json>) -> Seq<JsonV>
    decreases s,
{
    if s.len() == 0 {
        seq![]
    } else {
        json_views(s.drop_last()).push(json_view(s.last()))
    }
}

pub open spec fn member_views(m: Seq<(String, Json)>) -> Seq<(Seq<char>, JsonV)>
    decreases m,
{
    if m.len() == 0 {
        seq![]
    } else {
        member_views(m.drop_last()).push((m.last().0@, json_view(m.last().1)))
    }
}

impl Json {
    /// A copy of this value, member for member.
    pub fn copy(&self) -> (out: Json)
        ensures
            json_view(out) == json_view(*self),
        decreases self,
    {
        match self {
            Json::Null => Json::Null,
            Json::Bool(b) => Json::Bool(*b),
            Json::Number(t) => Json::Number(t.clone()),
            Json::Str(s) => Json::Str(s.clone()),
            Json::Array(a) => {
                let n = a.len();
                let mut out: Vec<Json> = Vec::new();
                for i in 0..n
                    invariant
                        n == a@.len(),
                        *self == Json::Array(*a),
                        json_views(out@) == json_views(a@.take(i as int)),
                {
                    proof {
                        assert(a@.take(i + 1).drop_last() == a@.take(i as int));
                        assert(a@.take(i + 1).last() == a@[i as int]);
                        assert((*self)->Array_0 == *a);
                        assert(decreases_to!(*self => (*self)->Array_0));
                        assert(decreases_to!(*a => a@));
                        assert(decreases_to!(a@ => a@[i as int]));
                        assert(decreases_to!(*self => a@[i as int]));
                    }
                    let c = a[i].copy();
                    let ghost before = out@;
                    out.push(c);
                    proof {
                        assert(out@.drop_last() == before);
                    }
                }
                proof {
                    assert(a@.take(n as int) == a@);
                }
                Json::Array(out)
            },
            Json::Object(m) => {
                let n = m.len();
                let mut out: Vec<(String, Json)> = Vec::new();
                for i in 0..n
                    invariant
                        n == m@.len(),
                        *self == Json::Object(*m),
                        member_views(out@) == member_views(m@.take(i as int)),
                {
                    proof {
                        assert(m@.take(i + 1).drop_last() == m@.take(i as int));
                        assert(m@.take(i + 1).last() == m@[i as int]);
                        assert((*self)->Object_0 == *m);
                        assert(decreases_to!(*self => (*self)->Object_0));
                        assert(decreases_to!(*m => m@));
                        assert(decreases_to!(m@ => m@[i as int]));
                        assert(decreases_to!(m@[i as int] => m@[i as int].1));
                        assert(decreases_to!(*self => m@[i as int].1));
                    }
                    let c = m[i].1.copy();
                    let ghost before = out@;
                    out.push((m[i].0.clone(), c));
                    proof {
                        assert(out@.drop_last() == before);
                    }
                }
                proof {
                    assert(m@.take(n as int) == m@);
                }
                Json::Object(out)
            },
        }
    }
}

/// What `serde_json` writes for this value: compact JSON text.
pub uninterp spec fn json_written(j: JsonV) -> Seq<char>;

/// [`Json`] as a `serde_json::Value`, member for member: a number's text
/// read back as a `serde_json::Number` (null where it does not read), an
/// array's items and an object's members converted in turn. Nothing is
/// claimed of the result; [`write_json`] names what is written from it.
#[verifier::external_body]
fn value_of_json(j: &Json) -> serde_json::Value {
    match j {
        Json::Null => serde_json::Value::Null,
        Json::Bool(b) => serde_json::Value::Bool(*b),
        Json::Number(t) => t.parse::<serde_json::Number>().map_or(serde_json::Value::Null, serde_json::Value::Number),
        Json::Str(s) => serde_json::Value::String(s.clone()),
        Json::Array(a) => serde_json::Value::Array(a.iter().map(value_of_json).collect()),
        Json::Object(m) => serde_json::Value::Object(m.iter().map(|(k, v)| (k.clone(), value_of_json(v))).collect()),
    }
}

/// `serde_json::Value::to_string` of the converted value: the compact JSON
/// text `serde_json` writes. The result is named, not stated: it is
/// `json_written` of the value.
#[verifier::external_body]
pub(crate) fn write_json(j: &Json) -> (out: String)
    ensures
        out@ == json_written(json_view(*j)),
{
    value_of_json(j).to_string()
}

/// `value.pointer("/a/b/...")` through object members: the value at the end
/// of the path of keys, `None` where a step finds nothing.
pub open spec fn json_at(j: Json, keys: Seq<Seq<char>>) -> Option<Json>
    decreases keys.len(),
{
    if keys.len() == 0 {
        Some(j)
    } else {
        match json_get(j, keys[0]) {
            Some(x) => json_at(x, keys.drop_first()),
            None => None,
        }
    }
}

pub open spec fn key_views(keys: Seq<&str>) -> Seq<Seq<char>> {
    keys.map_values(|k: &str| k@)
}

impl Json {
    /// The value at the end of a path of member keys.
    pub fn at(&self, keys: &[&str]) -> (out: Option<&Json>)
        ensures
            match out {
                Some(v) => json_at(*self, key_views(keys@)) == Some(*v),
                None => json_at(*self, key_views(keys@)) is None,
            },
    {
        let ghost kv = key_views(keys@);
        let mut cur: &Json = self;
        let n = keys.len();
        proof {
            assert(kv.skip(0) == kv);
        }
        for i in 0..n
            invariant
                n == keys@.len(),
                kv == key_views(keys@),
                json_at(*self, kv) == json_at(*cur, kv.skip(i as int)),
        {
            proof {
                assert(kv.skip(i as int)[0] == keys@[i as int]@);
                assert(kv.skip(i as int).drop_first() == kv.skip(i + 1));
            }
            match cur.get(keys[i]) {
                Some(x) => {
                    cur = x;
                },
                None => {
                    return None;
                },
            }
        }
        proof {
            assert(kv.skip(n as int).len() == 0);
        }
        Some(cur)
    }
}

/// What `serde_json::from_slice` reads these bytes as, `None` where it
/// reports an error.
pub uninterp spec fn json_parsed_bytes(bytes: Seq<u8>) -> Option<Json>;

/// `serde_json::from_slice::<serde_json::Value>(bytes)`, converted. The
/// result is named, not stated.
#[verifier::external_body]
pub(crate) fn parse_json_bytes(bytes: &[u8]) -> (out: Option<Json>)
    ensures
        out == json_parsed_bytes(bytes@),
{
    serde_json::from_slice::<serde_json::Value>(bytes).ok().map(json_of_value)
}

} // verus!
