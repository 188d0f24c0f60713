//! What has been happening, folded out of the graph a sync already filled:
//! per repository, a window of pull-request and commit movement; per
//! project, one feed of what was checked and what was said.

use vstd::prelude::*;
use vstd::string::StringSliceAdditionalSpecFns;
use vstd::utf8::encode_utf8;

use crate::components_catalog::activity::{days_from_civil, days_from_civil_of};
use crate::components_catalog::gearbox::{insert_sorted, str_views, strictly_sorted};
use crate::json::{json_bool, json_get, json_i64, str_at, Json};
use crate::numbers::{padded, padded_of};
use crate::text::{leaf, leaf_of, lex_lt, push_str, seq_lt, str_eq, string_of};
use crate::numbers::{
    is_digit_byte, lemma_digits_value_bound, parse_i64, parse_i64_in, parse_unsigned, parse_unsigned_in,
    pow10,
};

verus! {

/// A day, in milliseconds.
pub const DAY_MS: i64 = 86_400_000;

pub open spec fn u32_max() -> nat {
    4294967295
}

/// The date and time fields of `YYYY-MM-DDTHH:MM:SS`, read from the first
/// nineteen bytes, when they are that shape and in range.
pub open spec fn rfc3339_fields(bs: Seq<u8>) -> Option<(int, int, int, int, int, int)> {
    if bs.len() < 19 || bs[4] != 45 || bs[7] != 45 {
        None
    } else if !(bs[10] == 84 || bs[10] == 116 || bs[10] == 32) || bs[13] != 58 || bs[16] != 58 {
        None
    } else {
        match (
            parse_i64(bs.subrange(0, 4)),
            parse_unsigned(bs.subrange(5, 7), u32_max()),
            parse_unsigned(bs.subrange(8, 10), u32_max()),
            parse_i64(bs.subrange(11, 13)),
            parse_i64(bs.subrange(14, 16)),
            parse_i64(bs.subrange(17, 19)),
        ) {
            (Some(y), Some(mo), Some(d), Some(h), Some(mi), Some(s)) => if 1 <= mo <= 12 && d != 0 && d <= 31
                && h <= 23 && mi <= 59 && s <= 60 {
                Some((y, mo as int, d as int, h, mi, s))
            } else {
                None
            },
            _ => None,
        }
    }
}

/// The instant the fields name, in epoch milliseconds, before any zone.
pub open spec fn fields_ms(f: (int, int, int, int, int, int)) -> int {
    ((((days_from_civil_of(f.0, f.1, f.2) * 24 + f.3) * 60 + f.4) * 60 + f.5) * 1000)
}

/// Where the fraction after the seconds ends: digits and dots skipped.
pub open spec fn fraction_end(rest: Seq<u8>, i: int) -> int
    decreases rest.len() - i,
{
    if 0 <= i < rest.len() && (rest[i] == 46 || is_digit_byte(rest[i])) {
        fraction_end(rest, i + 1)
    } else {
        i
    }
}

/// The first `:` at or after `i`.
pub open spec fn colon_from(bs: Seq<u8>, i: int) -> Option<int>
    decreases bs.len() - i,
{
    if i < 0 || i >= bs.len() {
        None
    } else if bs[i] == 58 {
        Some(i)
    } else {
        colon_from(bs, i + 1)
    }
}

/// A byte offset that starts a character (or ends the text).
pub open spec fn starts_char(bs: Seq<u8>, i: int) -> bool {
    i == bs.len() || (0 <= i < bs.len() && !(128 <= bs[i] <= 191))
}

/// The two parts of a zone offset, hours and minutes, as text: around a
/// colon, or two and two digits; `None` when neither fits.
pub open spec fn offset_parts(offset: Seq<u8>) -> Option<(Seq<u8>, Seq<u8>)> {
    match colon_from(offset, 0) {
        Some(p) => Some((offset.take(p), offset.skip(p + 1))),
        None => if offset.len() >= 4 {
            Some((offset.take(2), offset.subrange(2, 4)))
        } else {
            None
        },
    }
}

/// The zone after the seconds: `None` when it is there and does not read;
/// `Some(None)` when there is none (UTC); else the hours, minutes and
/// whether it is west of UTC.
pub open spec fn zone_of(bs: Seq<u8>) -> Option<Option<(int, int, bool)>> {
    let rest = bs.skip(19);
    let k = fraction_end(rest, 0);
    if k < rest.len() && (rest[k] == 43 || rest[k] == 45) {
        let offset = rest.skip(k + 1);
        match offset_parts(offset) {
            None => Some(None),
            Some(parts) => if colon_from(offset, 0) is None && !(starts_char(offset, 2) && starts_char(offset, 4)) {
                None
            } else {
                let m = if parts.1.len() >= 2 { parts.1.take(2) } else { parts.1 };
                match (parse_i64(parts.0), parse_i64(m)) {
                    (Some(oh), Some(om)) => Some(Some((oh, om, rest[k] == 45))),
                    _ => None,
                }
            },
        }
    } else {
        Some(None)
    }
}

pub open spec fn offset_ms(oh: int, om: int) -> int {
    (oh * 60 + om) * 60 * 1000
}

pub open spec fn in_i64(x: int) -> bool {
    i64::MIN <= x <= i64::MAX
}

/// An RFC 3339 timestamp as epoch milliseconds: `YYYY-MM-DDTHH:MM:SS`
/// with an optional fraction and an optional zone; no zone and `Z` both
/// mean UTC. Anything else is no time, and so is an offset too large for
/// the instant to be held in milliseconds.
pub open spec fn rfc3339_ms(bs: Seq<u8>) -> Option<int> {
    match rfc3339_fields(bs) {
        None => None,
        Some(f) => match zone_of(bs) {
            None => None,
            Some(None) => Some(fields_ms(f)),
            Some(Some((oh, om, west))) => {
                let at = if west {
                    fields_ms(f) + offset_ms(oh, om)
                } else {
                    fields_ms(f) - offset_ms(oh, om)
                };
                if in_i64(oh * 60) && in_i64(oh * 60 + om) && in_i64((oh * 60 + om) * 60) && in_i64(offset_ms(oh, om))
                    && in_i64(at) {
                    Some(at)
                } else {
                    None
                }
            },
        },
    }
}

proof fn lemma_days_from_civil_bounds(y: int, m: int, d: int)
    requires
        -10000 < y < 10000,
        1 <= m <= 12,
        1 <= d <= 31,
    ensures
        -10_000_000 < days_from_civil_of(y, m, d) < 10_000_000,
{
    let y2 = if m <= 2 { y - 1 } else { y };
    vstd::arithmetic::div_mod::lemma_fundamental_div_mod(y2, 400);
    vstd::arithmetic::div_mod::lemma_mod_bound(y2, 400);
    let era = y2 / 400;
    let yoe = y2 - era * 400;
    assert(0 <= yoe < 400);
    assert(-27 < era < 26);
    vstd::arithmetic::div_mod::lemma_fundamental_div_mod(yoe, 4);
    vstd::arithmetic::div_mod::lemma_mod_bound(yoe, 4);
    vstd::arithmetic::div_mod::lemma_fundamental_div_mod(yoe, 100);
    vstd::arithmetic::div_mod::lemma_mod_bound(yoe, 100);
    let mp = if m > 2 { m - 3 } else { m + 9 };
    let x = 153 * mp + 2;
    vstd::arithmetic::div_mod::lemma_fundamental_div_mod(x, 5);
    vstd::arithmetic::div_mod::lemma_mod_bound(x, 5);
    assert(0 <= x / 5 <= 400);
    assert(0 <= yoe / 4 <= 100);
    assert(0 <= yoe / 100 <= 4);
}

proof fn lemma_pow10_small(n: nat)
    requires
        n <= 4,
    ensures
        pow10(n) <= 10000,
{
    assert(pow10(0) == 1);
    assert(pow10(1) == 10);
    assert(pow10(2) == 100);
    assert(pow10(3) == 1000);
    assert(pow10(4) == 10000);
}

/// A number read from at most four bytes is under ten thousand either way.
proof fn lemma_short_i64(s: Seq<u8>)
    requires
        s.len() <= 4,
        parse_i64(s) is Some,
    ensures
        -10000 < parse_i64(s)->0 < 10000,
{
    if s.len() > 0 && s[0] == 45 {
        let body = s.drop_first();
        lemma_digits_value_bound(body);
        lemma_pow10_small(body.len());
    } else {
        let body = if s.len() > 0 && s[0] == 43 { s.drop_first() } else { s };
        lemma_digits_value_bound(body);
        lemma_pow10_small(body.len());
    }
}

fn fraction_end_exec(bs: &[u8], from: usize) -> (k: usize)
    requires
        from <= bs@.len(),
    ensures
        from <= k <= bs@.len(),
        k - from == fraction_end(bs@.skip(from as int), 0),
{
    let n = bs.len();
    let mut k = from;
    let ghost rest = bs@.skip(from as int);
    while k < n && (bs[k] == 46 || (48 <= bs[k] && bs[k] <= 57))
        invariant
            n == bs@.len(),
            from <= k <= n,
            rest == bs@.skip(from as int),
            fraction_end(rest, 0) == fraction_end(rest, k - from),
        decreases n - k,
    {
        proof {
            assert(rest[k - from] == bs@[k as int]);
        }
        k = k + 1;
    }
    proof {
        if k < n {
            assert(rest[k - from] == bs@[k as int]);
        }
    }
    k
}

fn colon_from_exec(bs: &[u8], from: usize) -> (r: Option<usize>)
    requires
        from <= bs@.len(),
    ensures
        match r {
            Some(p) => from <= p < bs@.len() && colon_from(bs@.skip(from as int), 0) == Some(p - from),
            None => colon_from(bs@.skip(from as int), 0) is None,
        },
{
    let n = bs.len();
    let mut i = from;
    let ghost s = bs@.skip(from as int);
    while i < n
        invariant
            n == bs@.len(),
            from <= i <= n,
            s == bs@.skip(from as int),
            colon_from(s, 0) == colon_from(s, i - from),
        decreases n - i,
    {
        proof {
            assert(s[i - from] == bs@[i as int]);
        }
        if bs[i] == 58 {
            return Some(i);
        }
        i = i + 1;
    }
    None
}

fn base_ms(bs: &[u8]) -> (r: Option<i64>)
    ensures
        match r {
            Some(ms) => rfc3339_fields(bs@) is Some && ms as int == fields_ms(rfc3339_fields(bs@)->0),
            None => rfc3339_fields(bs@) is None,
        },
{
    let ghost b = bs@;
    let n = bs.len();
    if n < 19 || bs[4] != 45 || bs[7] != 45 {
        return None;
    }
    if !(bs[10] == 84 || bs[10] == 116 || bs[10] == 32) || bs[13] != 58 || bs[16] != 58 {
        return None;
    }
    let year = match parse_i64_in(bs, 0, 4) {
        Some(v) => v,
        None => return None,
    };
    let month = match parse_unsigned_in(bs, 5, 7, 4294967295u64) {
        Some(v) => v,
        None => return None,
    };
    let day = match parse_unsigned_in(bs, 8, 10, 4294967295u64) {
        Some(v) => v,
        None => return None,
    };
    let hour = match parse_i64_in(bs, 11, 13) {
        Some(v) => v,
        None => return None,
    };
    let minute = match parse_i64_in(bs, 14, 16) {
        Some(v) => v,
        None => return None,
    };
    let second = match parse_i64_in(bs, 17, 19) {
        Some(v) => v,
        None => return None,
    };
    if !(1 <= month && month <= 12) || day == 0 || day > 31 || hour > 23 || minute > 59 || second > 60 {
        return None;
    }
    proof {
        lemma_short_i64(b.subrange(0, 4));
        lemma_short_i64(b.subrange(11, 13));
        lemma_short_i64(b.subrange(14, 16));
        lemma_short_i64(b.subrange(17, 19));
        lemma_days_from_civil_bounds(year as int, month as int, day as int);
    }
    let days = days_from_civil(year, month as u32, day as u32);
    let ms: i64 = ((days * 24 + hour) * 60 + minute) * 60 + second;
    proof {
        assert(rfc3339_fields(b) == Some((year as int, month as int, day as int, hour as int, minute as int, second as int)));
    }
    Some(ms * 1000)
}

fn zone_exec(bs: &[u8]) -> (r: Option<Option<(i64, i64, bool)>>)
    requires
        bs@.len() >= 19,
    ensures
        match r {
            None => zone_of(bs@) is None,
            Some(None) => zone_of(bs@) == Some(None::<(int, int, bool)>),
            Some(Some((oh, om, west))) => zone_of(bs@) == Some(Some((oh as int, om as int, west))),
        },
{
    let ghost b = bs@;
    let n = bs.len();
    let k = fraction_end_exec(bs, 19);
    proof {
        if k < n {
            assert(b.skip(19)[k - 19] == b[k as int]);
        }
    }
    if !(k < n && (bs[k] == 43 || bs[k] == 45)) {
        return Some(None);
    }
    let west = bs[k] == 45;
    let start = k + 1;
    proof {
        assert(b.skip(19).skip(k - 19 + 1) == b.skip(start as int));
    }
    let ghost offset = b.skip(start as int);
    let parts: Option<(usize, usize, usize, usize)> = match colon_from_exec(bs, start) {
        Some(p) => {
            proof {
                assert(offset.take(p - start) == b.subrange(start as int, p as int));
                assert(offset.skip(p - start + 1) == b.subrange(p + 1, n as int));
            }
            Some((start, p, p + 1, n))
        },
        None => if n - start >= 4 {
            proof {
                assert(offset.take(2) == b.subrange(start as int, start + 2));
                assert(offset.subrange(2, 4) == b.subrange(start + 2, start + 4));
                assert(offset[2] == b[start + 2]);
                if start + 4 < n {
                    assert(offset[4] == b[start + 4]);
                }
            }
            let at2 = bs[start + 2];
            let cut_ok = !(128 <= at2 && at2 <= 191) && (start + 4 == n || !(128 <= bs[start + 4] && bs[start + 4] <= 191));
            if !cut_ok {
                return None;
            }
            Some((start, start + 2, start + 2, start + 4))
        } else {
            None
        },
    };
    match parts {
        None => Some(None),
        Some((h0, h1, m0, m1)) => {
            let m_end = if m1 - m0 >= 2 { m0 + 2 } else { m1 };
            proof {
                let pm = b.subrange(m0 as int, m1 as int);
                if pm.len() >= 2 {
                    assert(pm.take(2) == b.subrange(m0 as int, m_end as int));
                } else {
                    assert(pm == b.subrange(m0 as int, m_end as int));
                }
            }
            let oh = match parse_i64_in(bs, h0, h1) {
                Some(v) => v,
                None => return None,
            };
            let om = match parse_i64_in(bs, m0, m_end) {
                Some(v) => v,
                None => return None,
            };
            Some(Some((oh, om, west)))
        },
    }
}

/// An RFC 3339 timestamp as epoch milliseconds, or `None` for anything that
/// is not `YYYY-MM-DDTHH:MM:SS` with an optional fraction and zone.
pub fn parse_rfc3339_ms(value: &str) -> (r: Option<i64>)
    ensures
        match r {
            Some(ms) => rfc3339_ms(value.spec_bytes()) == Some(ms as int),
            None => rfc3339_ms(value.spec_bytes()) is None,
        },
{
    let bs = value.as_bytes();
    let ms = match base_ms(bs) {
        Some(v) => v,
        None => return None,
    };
    match zone_exec(bs) {
        None => None,
        Some(None) => Some(ms),
        Some(Some((oh, om, west))) => {
            let h = oh.checked_mul(60)?;
            let hm = h.checked_add(om)?;
            let secs = hm.checked_mul(60)?;
            let delta = secs.checked_mul(1000)?;
            if west {
                ms.checked_add(delta)
            } else {
                ms.checked_sub(delta)
            }
        },
    }
}

/// A node's string field, when it is there and not empty.
pub open spec fn field_str(v: Json, key: Seq<char>) -> Option<Seq<char>> {
    match str_at(v, key) {
        Some(s) => if s.len() > 0 {
            Some(s)
        } else {
            None
        },
        None => None,
    }
}

/// A node's timestamp field, read as an instant.
pub open spec fn instant(v: Json, key: Seq<char>) -> Option<int> {
    match field_str(v, key) {
        Some(s) => rfc3339_ms(encode_utf8(s)),
        None => None,
    }
}

fn field_str_exec<'a>(v: &'a Json, key: &str) -> (r: Option<&'a str>)
    ensures
        match r {
            Some(s) => field_str(*v, key@) == Some(s@),
            None => field_str(*v, key@) is None,
        },
{
    match v.str_at(key) {
        Some(s) => if s.is_empty() {
            None
        } else {
            Some(s)
        },
        None => None,
    }
}

fn instant_exec(v: &Json, key: &str) -> (r: Option<i64>)
    ensures
        match r {
            Some(ms) => instant(*v, key@) == Some(ms as int),
            None => instant(*v, key@) is None,
        },
{
    match field_str_exec(v, key) {
        Some(s) => parse_rfc3339_ms(s),
        None => None,
    }
}

/// The end of the window: the end of the day `now` falls in, so the last
/// bucket is the day in progress.
pub open spec fn window_end(now: int) -> int {
    (now / (DAY_MS as int)) * (DAY_MS as int) + (DAY_MS as int)
}

pub open spec fn window_start(now: int, days: int) -> int {
    window_end(now) - days * (DAY_MS as int)
}

/// The day of the window an instant falls on, oldest first.
pub open spec fn bucket_of(now: int, days: int, ms: Option<int>) -> Option<int> {
    match ms {
        Some(t) => if window_start(now, days) <= t < window_end(now) {
            Some((t - window_start(now, days)) / (DAY_MS as int))
        } else {
            None
        },
        None => None,
    }
}

/// When a pull request last moved: its update, else its creation.
pub open spec fn pull_moved(p: Json) -> Option<int> {
    match instant(p, "updated_at"@) {
        Some(t) => Some(t),
        None => instant(p, "created_at"@),
    }
}

pub open spec fn pull_merged(p: Json) -> bool {
    (match json_get(p, "merged"@) {
        Some(b) => json_bool(b) == Some(true),
        None => false,
    }) || field_str(p, "state"@) == Some("merged"@)
}

pub open spec fn pull_closed(p: Json) -> bool {
    pull_merged(p) || field_str(p, "state"@) == Some("closed"@)
}

/// How many of `s` satisfy `pred`.
pub open spec fn count_where(s: Seq<Json>, pred: spec_fn(Json) -> bool) -> nat
    decreases s.len(),
{
    if s.len() == 0 {
        0
    } else {
        count_where(s.drop_last(), pred) + if pred(s.last()) { 1nat } else { 0nat }
    }
}

proof fn lemma_count_where_bound(s: Seq<Json>, pred: spec_fn(Json) -> bool)
    ensures
        count_where(s, pred) <= s.len(),
    decreases s.len(),
{
    if s.len() > 0 {
        lemma_count_where_bound(s.drop_last(), pred);
    }
}

/// One repository's movement over the window: pull requests open now
/// (however old), pull requests merged in the window, commits in the
/// window, and one bucket per day of pull-request movement, oldest first.
#[derive(Debug, Clone, PartialEq, Eq)]
pub struct RepoActivity {
    pub open: u32,
    pub merged: u32,
    pub commits: u32,
    pub days: Vec<u32>,
}

pub open spec fn in_repo(v: Json, repo: Seq<char>) -> bool {
    field_str(v, "repo"@) == Some(repo)
}

/// `(open, merged, commits, days)` for one repository.
pub open spec fn activity_of(pulls: Seq<Json>, commits: Seq<Json>, now: int, days: int, repo: Seq<char>) -> (nat, nat, nat, Seq<nat>) {
    (
        count_where(pulls, |p: Json| in_repo(p, repo) && !pull_closed(p)),
        count_where(pulls, |p: Json| in_repo(p, repo) && pull_merged(p) && bucket_of(now, days, pull_moved(p)) is Some),
        count_where(commits, |c: Json| in_repo(c, repo) && bucket_of(now, days, instant(c, "created_at"@)) is Some),
        Seq::new(days as nat, |i: int| count_where(pulls, |p: Json| in_repo(p, repo) && bucket_of(now, days, pull_moved(p)) == Some(i))),
    )
}

pub open spec fn activity_view(a: RepoActivity) -> (nat, nat, nat, Seq<nat>) {
    (a.open as nat, a.merged as nat, a.commits as nat, a.days@.map_values(|n: u32| n as nat))
}

/// Some node names `repo`.
pub open spec fn named_repo(nodes: Seq<Json>, repo: Seq<char>) -> bool {
    exists|i: int| 0 <= i < nodes.len() && in_repo(#[trigger] nodes[i], repo)
}

/// What the window arithmetic needs to stay in `i64`.
pub open spec fn window_fits(now: int, days: int) -> bool {
    &&& in_i64((now / (DAY_MS as int)) * (DAY_MS as int))
    &&& in_i64(window_end(now))
    &&& in_i64(days * (DAY_MS as int))
    &&& in_i64(window_start(now, days))
}

/// `now.div_euclid(DAY_MS)`.
fn floor_div_day(now: i64) -> (q: i64)
    ensures
        q as int == now as int / (DAY_MS as int),
{
    if now >= 0 {
        now / DAY_MS
    } else {
        let a: i64 = -(now + 1);
        let q = a / DAY_MS;
        proof {
            vstd::arithmetic::div_mod::lemma_fundamental_div_mod(a as int, DAY_MS as int);
            vstd::arithmetic::div_mod::lemma_mod_bound(a as int, DAY_MS as int);
            let r = a as int % (DAY_MS as int);
            assert(now as int == (DAY_MS as int) * (-q - 1) + (DAY_MS as int - r - 1));
            vstd::arithmetic::div_mod::lemma_fundamental_div_mod_converse_div(now as int, DAY_MS as int, -q - 1, DAY_MS as int - r - 1);
        }
        -q - 1
    }
}

fn bucket_exec(now: i64, days: usize, start: i64, end: i64, ms: Option<i64>) -> (r: Option<usize>)
    requires
        window_fits(now as int, days as int),
        end as int == window_end(now as int),
        start as int == window_start(now as int, days as int),
    ensures
        match r {
            Some(b) => bucket_of(now as int, days as int, match ms { Some(t) => Some(t as int), None => None }) == Some(b as int)
                && b < days,
            None => bucket_of(now as int, days as int, match ms { Some(t) => Some(t as int), None => None }) is None,
        },
{
    match ms {
        None => None,
        Some(t) => {
            if t < start || t >= end {
                return None;
            }
            let q = (t - start) / DAY_MS;
            proof {
                assert((t - start) / (DAY_MS as int) < days) by {
                    assert(t - start < (DAY_MS as int) * days);
                    vstd::arithmetic::div_mod::lemma_multiply_divide_lt((t - start) as int, DAY_MS as int, days as int);
                }
            }
            Some(q as usize)
        },
    }
}

fn pull_moved_exec(p: &Json) -> (r: Option<i64>)
    ensures
        match r {
            Some(t) => pull_moved(*p) == Some(t as int),
            None => pull_moved(*p) is None,
        },
{
    match instant_exec(p, "updated_at") {
        Some(t) => Some(t),
        None => instant_exec(p, "created_at"),
    }
}

fn pull_merged_exec(p: &Json) -> (r: bool)
    ensures
        r == pull_merged(*p),
{
    let flag = match p.get("merged") {
        Some(b) => match b.as_bool() {
            Some(x) => x,
            None => false,
        },
        None => false,
    };
    flag || match field_str_exec(p, "state") {
        Some(s) => str_eq(s, "merged"),
        None => false,
    }
}

fn pull_closed_exec(p: &Json) -> (r: bool)
    ensures
        r == pull_closed(*p),
{
    pull_merged_exec(p) || match field_str_exec(p, "state") {
        Some(s) => str_eq(s, "closed"),
        None => false,
    }
}

fn in_repo_exec(v: &Json, repo: &str) -> (r: bool)
    ensures
        r == in_repo(*v, repo@),
{
    match field_str_exec(v, "repo") {
        Some(s) => str_eq(s, repo),
        None => false,
    }
}

/// The repositories the nodes name, sorted, each once.
fn repos_of(nodes: &[Json], keys: &mut Vec<String>)
    requires
        strictly_sorted(str_views(old(keys)@)),
    ensures
        strictly_sorted(str_views(final(keys)@)),
        forall|r: Seq<char>| #[trigger] str_views(final(keys)@).contains(r) <==> str_views(old(keys)@).contains(r) || named_repo(nodes@, r),
{
    let ghost start = str_views(keys@);
    let n = nodes.len();
    for i in 0..n
        invariant
            n == nodes@.len(),
            strictly_sorted(str_views(keys@)),
            forall|r: Seq<char>| #[trigger] str_views(keys@).contains(r) <==> start.contains(r) || named_repo(nodes@.take(i as int), r),
    {
        let ghost before = str_views(keys@);
        proof {
            assert forall|r: Seq<char>| named_repo(nodes@.take(i + 1), r) <==> named_repo(nodes@.take(i as int), r) || in_repo(nodes@[i as int], r) by {
                if named_repo(nodes@.take(i + 1), r) {
                    let j = choose|j: int| 0 <= j < nodes@.take(i + 1).len() && in_repo(#[trigger] nodes@.take(i + 1)[j], r);
                    if j < i {
                        assert(nodes@.take(i as int)[j] == nodes@.take(i + 1)[j]);
                    }
                }
                if named_repo(nodes@.take(i as int), r) {
                    let j = choose|j: int| 0 <= j < nodes@.take(i as int).len() && in_repo(#[trigger] nodes@.take(i as int)[j], r);
                    assert(nodes@.take(i as int)[j] == nodes@.take(i + 1)[j]);
                }
                if in_repo(nodes@[i as int], r) {
                    assert(nodes@.take(i + 1)[i as int] == nodes@[i as int]);
                }
            }
        }
        match field_str_exec(&nodes[i], "repo") {
            Some(s) => {
                insert_sorted(keys, s.to_owned());
                proof {
                    assert forall|r: Seq<char>| in_repo(nodes@[i as int], r) <==> r == s@ by {}
                    assert forall|r: Seq<char>| #[trigger] str_views(keys@).contains(r) <==> start.contains(r) || named_repo(nodes@.take(i + 1), r) by {
                        assert(str_views(keys@).to_set().contains(r) == str_views(keys@).contains(r));
                        assert(before.to_set().contains(r) == before.contains(r));
                        assert(before.contains(r) <==> start.contains(r) || named_repo(nodes@.take(i as int), r));
                        assert(named_repo(nodes@.take(i + 1), r) <==> named_repo(nodes@.take(i as int), r) || in_repo(nodes@[i as int], r));
                        assert(str_views(keys@).contains(r) <==> before.contains(r) || r == s@);
                    }
                }
            },
            None => {
                proof {
                    assert forall|r: Seq<char>| !in_repo(nodes@[i as int], r) by {}
                }
            },
        }
    }
    proof {
        assert(nodes@.take(n as int) == nodes@);
    }
}

fn activity_for(
    pulls: &[Json],
    commits: &[Json],
    now: i64,
    days: usize,
    start: i64,
    end: i64,
    repo: &str,
) -> (a: RepoActivity)
    requires
        window_fits(now as int, days as int),
        end as int == window_end(now as int),
        start as int == window_start(now as int, days as int),
        pulls@.len() <= u32::MAX,
        commits@.len() <= u32::MAX,
    ensures
        activity_view(a) == activity_of(pulls@, commits@, now as int, days as int, repo@),
{
    let ghost target = activity_of(pulls@, commits@, now as int, days as int, repo@);
    let ghost r = repo@;
    let ghost (n_i, d_i) = (now as int, days as int);
    let mut buckets: Vec<u32> = Vec::new();
    for i in 0..days
        invariant
            buckets@.len() == i,
            forall|k: int| 0 <= k < i ==> buckets@[k] == 0,
    {
        buckets.push(0);
    }
    let mut open: u32 = 0;
    let mut merged: u32 = 0;
    let np = pulls.len();
    for i in 0..np
        invariant
            np == pulls@.len(),
            np <= u32::MAX,
            window_fits(now as int, days as int),
            end as int == window_end(now as int),
            start as int == window_start(now as int, days as int),
            buckets@.len() == days,
            open == count_where(pulls@.take(i as int), |p: Json| in_repo(p, r) && !pull_closed(p)),
            merged == count_where(pulls@.take(i as int), |p: Json| in_repo(p, r) && pull_merged(p) && bucket_of(n_i, d_i, pull_moved(p)) is Some),
            forall|k: int| 0 <= k < days ==> buckets@[k] == count_where(pulls@.take(i as int), |p: Json| in_repo(p, r) && bucket_of(n_i, d_i, pull_moved(p)) == Some(k)),
            r == repo@,
            n_i == now as int,
            d_i == days as int,
    {
        let p = &pulls[i];
        let ghost pv = pulls@.take(i + 1);
        proof {
            assert(pv.drop_last() == pulls@.take(i as int));
            assert(pv.last() == pulls@[i as int]);
            lemma_count_where_bound(pulls@.take(i as int), |p: Json| in_repo(p, r) && !pull_closed(p));
            lemma_count_where_bound(pulls@.take(i as int), |p: Json| in_repo(p, r) && pull_merged(p) && bucket_of(n_i, d_i, pull_moved(p)) is Some);
        }
        if in_repo_exec(p, repo) {
            if !pull_closed_exec(p) {
                open = open + 1;
            }
            let moved = pull_moved_exec(p);
            match bucket_exec(now, days, start, end, moved) {
                Some(b) => {
                    if pull_merged_exec(p) {
                        merged = merged + 1;
                    }
                    proof {
                        lemma_count_where_bound(pulls@.take(i as int), |p: Json| in_repo(p, r) && bucket_of(n_i, d_i, pull_moved(p)) == Some(b as int));
                    }
                    let v = buckets[b];
                    buckets.set(b, v + 1);
                },
                None => {},
            }
        }
    }
    proof {
        assert(pulls@.take(np as int) == pulls@);
    }
    let mut ncommits: u32 = 0;
    let nc = commits.len();
    for i in 0..nc
        invariant
            nc == commits@.len(),
            nc <= u32::MAX,
            window_fits(now as int, days as int),
            end as int == window_end(now as int),
            start as int == window_start(now as int, days as int),
            ncommits == count_where(commits@.take(i as int), |c: Json| in_repo(c, r) && bucket_of(n_i, d_i, instant(c, "created_at"@)) is Some),
            r == repo@,
            n_i == now as int,
            d_i == days as int,
    {
        let c = &commits[i];
        proof {
            assert(commits@.take(i + 1).drop_last() == commits@.take(i as int));
            assert(commits@.take(i + 1).last() == commits@[i as int]);
            lemma_count_where_bound(commits@.take(i as int), |c: Json| in_repo(c, r) && bucket_of(n_i, d_i, instant(c, "created_at"@)) is Some);
        }
        if in_repo_exec(c, repo) {
            let t = instant_exec(c, "created_at");
            if bucket_exec(now, days, start, end, t).is_some() {
                ncommits = ncommits + 1;
            }
        }
    }
    proof {
        assert(commits@.take(nc as int) == commits@);
    }
    let a = RepoActivity { open, merged, commits: ncommits, days: buckets };
    proof {
        assert(activity_view(a).3 =~= target.3);
    }
    a
}

pub open spec fn activity_keys(v: Seq<(String, RepoActivity)>) -> Seq<Seq<char>> {
    v.map_values(|e: (String, RepoActivity)| e.0@)
}

/// Fold pull-request and commit nodes into one summary per repository,
/// keyed by repository in ascending order. `now` is a parameter rather than
/// the clock so every row on one screen is measured against one instant.
pub fn repo_activity(pulls: &[Json], commits: &[Json], now: i64, days: usize) -> (out: Vec<(String, RepoActivity)>)
    requires
        window_fits(now as int, days as int),
        pulls@.len() <= u32::MAX,
        commits@.len() <= u32::MAX,
    ensures
        strictly_sorted(activity_keys(out@)),
        forall|r: Seq<char>| #[trigger] activity_keys(out@).contains(r) <==> named_repo(pulls@, r) || named_repo(commits@, r),
        forall|i: int| 0 <= i < out@.len() ==> activity_view(#[trigger] out@[i].1) == activity_of(pulls@, commits@, now as int, days as int, out@[i].0@),
{
    let mut keys: Vec<String> = Vec::new();
    proof {
        assert(str_views(keys@) =~= Seq::<Seq<char>>::empty());
    }
    repos_of(pulls, &mut keys);
    repos_of(commits, &mut keys);
    let end = floor_div_day(now) * DAY_MS + DAY_MS;
    let start = end - (days as i64) * DAY_MS;
    let nk = keys.len();
    let mut out: Vec<(String, RepoActivity)> = Vec::new();
    for k in 0..nk
        invariant
            nk == keys@.len(),
            out@.len() == k,
            window_fits(now as int, days as int),
            end as int == window_end(now as int),
            start as int == window_start(now as int, days as int),
            pulls@.len() <= u32::MAX,
            commits@.len() <= u32::MAX,
            forall|j: int| 0 <= j < k ==> (#[trigger] out@[j]).0@ == keys@[j]@,
            forall|j: int| 0 <= j < k ==> activity_view(#[trigger] out@[j].1) == activity_of(pulls@, commits@, now as int, days as int, out@[j].0@),
    {
        let a = activity_for(pulls, commits, now, days, start, end, keys[k].as_str());
        out.push((keys[k].clone(), a));
    }
    proof {
        assert(activity_keys(out@) =~= str_views(keys@));
    }
    out
}

// ── the feed ─────────────────────────────────────────────────────────────────

#[derive(Debug, Clone, Copy, PartialEq, Eq, Structural)]
pub enum EventKind {
    Check,
    Comment,
}

impl EventKind {
    pub fn as_str(self) -> (out: &'static str)
        ensures
            out@ == match self {
                EventKind::Check => "check"@,
                EventKind::Comment => "comment"@,
            },
    {
        match self {
            EventKind::Check => "check",
            EventKind::Comment => "comment",
        }
    }
}

/// One thing that happened.
#[derive(Debug, Clone, PartialEq, Eq)]
pub struct ActivityEvent {
    pub id: String,
    pub kind: EventKind,
    /// What happened, in the product's words.
    pub event: String,
    /// What it happened to — a document, or the issue a comment is on.
    pub subject: String,
    /// Who or what did it; a detector names itself.
    pub by: String,
    /// RFC 3339, or `None` when the node carries no time.
    pub recorded: Option<String>,
    /// The detector's own word for how it went, when there is one.
    pub severity: Option<String>,
}

pub struct EventV {
    pub id: Seq<char>,
    pub kind: EventKind,
    pub event: Seq<char>,
    pub subject: Seq<char>,
    pub by: Seq<char>,
    pub recorded: Option<Seq<char>>,
    pub severity: Option<Seq<char>>,
}

pub open spec fn opt_str(o: Option<String>) -> Option<Seq<char>> {
    match o {
        Some(s) => Some(s@),
        None => None,
    }
}

pub open spec fn event_view(e: ActivityEvent) -> EventV {
    EventV {
        id: e.id@,
        kind: e.kind,
        event: e.event@,
        subject: e.subject@,
        by: e.by@,
        recorded: opt_str(e.recorded),
        severity: opt_str(e.severity),
    }
}

pub open spec fn event_views(v: Seq<ActivityEvent>) -> Seq<EventV> {
    v.map_values(|e: ActivityEvent| event_view(e))
}

/// The name a subject node goes by, where one is given.
pub open spec fn name_lookup(names: Seq<(String, String)>, id: Seq<char>) -> Option<Seq<char>>
    decreases names.len(),
{
    if names.len() == 0 {
        None
    } else if names[0].0@ == id {
        Some(names[0].1@)
    } else {
        name_lookup(names.drop_first(), id)
    }
}

pub open spec fn or_else(a: Option<Seq<char>>, b: Option<Seq<char>>) -> Option<Seq<char>> {
    match a {
        Some(x) => Some(x),
        None => b,
    }
}

/// A finding as a check: named by what its subject is called, then by its
/// file's leaf, then by the subject's id, then by its own id.
pub open spec fn finding_event(id: Seq<char>, v: Json, names: Seq<(String, String)>) -> EventV {
    let subject = field_str(v, "subject"@);
    let named = match subject {
        Some(s) => name_lookup(names, s),
        None => None,
    };
    let by_path = match field_str(v, "path"@) {
        Some(p) => Some(leaf_of(p)),
        None => None,
    };
    EventV {
        id,
        kind: EventKind::Check,
        event: "Document checked"@,
        subject: match or_else(or_else(named, by_path), subject) {
            Some(x) => x,
            None => id,
        },
        by: match field_str(v, "detector"@) {
            Some(d) => d,
            None => "Studio"@,
        },
        recorded: field_str(v, "recorded_at"@),
        severity: field_str(v, "severity"@),
    }
}

/// A comment, named by what it is on (`#42`), else by its title, else its id.
pub open spec fn comment_event(id: Seq<char>, v: Json) -> EventV {
    let number = match json_get(v, "target_number"@) {
        Some(n) => json_i64(n),
        None => None,
    };
    EventV {
        id,
        kind: EventKind::Comment,
        event: "Comment"@,
        subject: match number {
            Some(n) => "#"@ + padded(n, 0),
            None => match field_str(v, "title"@) {
                Some(t) => t,
                None => id,
            },
        },
        by: match field_str(v, "author"@) {
            Some(a) => a,
            None => "unknown"@,
        },
        recorded: or_else(field_str(v, "created_at"@), field_str(v, "updated_at"@)),
        severity: None,
    }
}

/// When an event happened, where it says and that reads.
pub open spec fn event_time(e: EventV) -> Option<int> {
    match e.recorded {
        Some(r) => rfc3339_ms(encode_utf8(r)),
        None => None,
    }
}

/// Newest first, undated last, then by id.
pub open spec fn event_before(a: EventV, b: EventV) -> bool {
    match (event_time(a), event_time(b)) {
        (Some(x), Some(y)) => if x != y {
            x > y
        } else {
            seq_lt(a.id, b.id)
        },
        (Some(_), None) => true,
        (None, Some(_)) => false,
        (None, None) => seq_lt(a.id, b.id),
    }
}

pub open spec fn event_insert_at(s: Seq<EventV>, x: EventV) -> int
    decreases s.len(),
{
    if s.len() == 0 {
        0
    } else if event_before(x, s[0]) {
        0
    } else {
        1 + event_insert_at(s.drop_first(), x)
    }
}

/// A stable sort by [`event_before`].
pub open spec fn sort_events(s: Seq<EventV>) -> Seq<EventV>
    decreases s.len(),
{
    if s.len() == 0 {
        s
    } else {
        let sorted = sort_events(s.drop_last());
        sorted.insert(event_insert_at(sorted, s.last()), s.last())
    }
}

/// The findings as checks, then the comments, before sorting.
pub open spec fn feed_events(findings: Seq<(String, Json)>, comments: Seq<(String, Json)>, names: Seq<(String, String)>) -> Seq<EventV> {
    findings.map_values(|f: (String, Json)| finding_event(f.0@, f.1, names)) + comments.map_values(
        |c: (String, Json)| comment_event(c.0@, c.1),
    )
}

fn name_lookup_exec(names: &[(String, String)], id: &str) -> (r: Option<String>)
    ensures
        opt_str(r) == name_lookup(names@, id@),
{
    let n = names.len();
    let mut i: usize = 0;
    proof {
        assert(names@.skip(0) == names@);
    }
    while i < n
        invariant
            n == names@.len(),
            i <= n,
            name_lookup(names@, id@) == name_lookup(names@.skip(i as int), id@),
        decreases n - i,
    {
        proof {
            assert(names@.skip(i as int)[0] == names@[i as int]);
            assert(names@.skip(i as int).drop_first() == names@.skip(i + 1));
        }
        if str_eq(names[i].0.as_str(), id) {
            return Some(names[i].1.clone());
        }
        i = i + 1;
    }
    None
}

fn opt_owned(o: Option<&str>) -> (r: Option<String>)
    ensures
        opt_str(r) == match o {
            Some(s) => Some(s@),
            None => None::<Seq<char>>,
        },
{
    match o {
        Some(s) => Some(s.to_owned()),
        None => None,
    }
}

fn finding_event_exec(id: &String, v: &Json, names: &[(String, String)]) -> (e: ActivityEvent)
    ensures
        event_view(e) == finding_event(id@, *v, names@),
{
    let subject = field_str_exec(v, "subject");
    let named: Option<String> = match subject {
        Some(s) => name_lookup_exec(names, s),
        None => None,
    };
    let named = match named {
        Some(x) => Some(x),
        None => match field_str_exec(v, "path") {
            Some(p) => Some(leaf(p)),
            None => None,
        },
    };
    let named = match named {
        Some(x) => x,
        None => match subject {
            Some(s) => s.to_owned(),
            None => id.clone(),
        },
    };
    let by = match field_str_exec(v, "detector") {
        Some(d) => d.to_owned(),
        None => "Studio".to_owned(),
    };
    ActivityEvent {
        id: id.clone(),
        kind: EventKind::Check,
        event: "Document checked".to_owned(),
        subject: named,
        by,
        recorded: opt_owned(field_str_exec(v, "recorded_at")),
        severity: opt_owned(field_str_exec(v, "severity")),
    }
}

fn comment_event_exec(id: &String, v: &Json) -> (e: ActivityEvent)
    ensures
        event_view(e) == comment_event(id@, *v),
{
    let number = match v.get("target_number") {
        Some(n) => n.as_i64(),
        None => None,
    };
    let subject = match number {
        Some(n) => {
            let mut t: Vec<char> = Vec::new();
            push_str(&mut t, "#");
            let d = padded_of(n, 0);
            let ghost before = t@;
            let m = d.len();
            for k in 0..m
                invariant
                    m == d@.len(),
                    t@ == before + d@.take(k as int),
            {
                t.push(d[k]);
                proof {
                    assert(d@.take(k + 1) == d@.take(k as int).push(d@[k as int]));
                }
            }
            proof {
                assert(d@.take(m as int) == d@);
            }
            string_of(&t)
        },
        None => match field_str_exec(v, "title") {
            Some(t) => t.to_owned(),
            None => id.clone(),
        },
    };
    let by = match field_str_exec(v, "author") {
        Some(a) => a.to_owned(),
        None => "unknown".to_owned(),
    };
    let recorded = match field_str_exec(v, "created_at") {
        Some(c) => Some(c.to_owned()),
        None => opt_owned(field_str_exec(v, "updated_at")),
    };
    ActivityEvent {
        id: id.clone(),
        kind: EventKind::Comment,
        event: "Comment".to_owned(),
        subject,
        by,
        recorded,
        severity: None,
    }
}

fn event_time_exec(e: &ActivityEvent) -> (r: Option<i64>)
    ensures
        match r {
            Some(t) => event_time(event_view(*e)) == Some(t as int),
            None => event_time(event_view(*e)) is None,
        },
{
    match &e.recorded {
        Some(s) => parse_rfc3339_ms(s.as_str()),
        None => None,
    }
}

fn event_before_exec(a: &ActivityEvent, b: &ActivityEvent) -> (r: bool)
    ensures
        r == event_before(event_view(*a), event_view(*b)),
{
    let ta = event_time_exec(a);
    let tb = event_time_exec(b);
    match (ta, tb) {
        (Some(x), Some(y)) => if x != y {
            x > y
        } else {
            lex_lt(&crate::text::chars_of(a.id.as_str()), &crate::text::chars_of(b.id.as_str()))
        },
        (Some(_), None) => true,
        (None, Some(_)) => false,
        (None, None) => lex_lt(&crate::text::chars_of(a.id.as_str()), &crate::text::chars_of(b.id.as_str())),
    }
}

fn insert_event(out: &mut Vec<ActivityEvent>, x: ActivityEvent)
    ensures
        event_views(final(out)@) == event_views(old(out)@).insert(
            event_insert_at(event_views(old(out)@), event_view(x)),
            event_view(x),
        ),
{
    let ghost sorted = event_views(out@);
    let mut k: usize = 0;
    proof {
        assert(sorted.skip(0) == sorted);
    }
    while k < out.len() && !event_before_exec(&x, &out[k])
        invariant
            0 <= k <= out@.len(),
            sorted == event_views(out@),
            event_insert_at(sorted, event_view(x)) == k + event_insert_at(sorted.skip(k as int), event_view(x)),
        decreases out@.len() - k,
    {
        proof {
            assert(sorted.skip(k as int)[0] == event_view(out@[k as int]));
            assert(sorted.skip(k as int).drop_first() == sorted.skip(k + 1));
        }
        k += 1;
    }
    proof {
        if k < out@.len() {
            assert(sorted.skip(k as int)[0] == event_view(out@[k as int]));
        }
    }
    let ghost xv = event_view(x);
    out.insert(k, x);
    proof {
        assert(event_views(out@) =~= sorted.insert(k as int, xv));
    }
}

/// One feed out of findings and comments, newest first, undated last, then
/// by id; a subject is named by `names` where it can be, by its file, or by
/// an id, and a row is never dropped.
pub fn activity_feed(
    findings: &[(String, Json)],
    comments: &[(String, Json)],
    names: &[(String, String)],
) -> (out: Vec<ActivityEvent>)
    ensures
        event_views(out@) == sort_events(feed_events(findings@, comments@, names@)),
{
    let ghost all = feed_events(findings@, comments@, names@);
    let mut out: Vec<ActivityEvent> = Vec::new();
    let nf = findings.len();
    let nc = comments.len();
    proof {
        assert(all.len() == nf + nc);
        assert(all.take(0) =~= Seq::<EventV>::empty());
        assert(event_views(out@) =~= Seq::<EventV>::empty());
    }
    for i in 0..nf
        invariant
            nf == findings@.len(),
            nc == comments@.len(),
            all == feed_events(findings@, comments@, names@),
            all.len() == nf + nc,
            event_views(out@) == sort_events(all.take(i as int)),
    {
        let e = finding_event_exec(&findings[i].0, &findings[i].1, names);
        proof {
            assert(all[i as int] == finding_event(findings@[i as int].0@, findings@[i as int].1, names@));
            let t = all.take(i + 1);
            assert(t.drop_last() == all.take(i as int));
            assert(t.last() == all[i as int]);
        }
        insert_event(&mut out, e);
    }
    for i in 0..nc
        invariant
            nf == findings@.len(),
            nc == comments@.len(),
            all == feed_events(findings@, comments@, names@),
            all.len() == nf + nc,
            event_views(out@) == sort_events(all.take(nf + i)),
    {
        let e = comment_event_exec(&comments[i].0, &comments[i].1);
        proof {
            assert(all[nf + i] == comment_event(comments@[i as int].0@, comments@[i as int].1));
            let t = all.take(nf + i + 1);
            assert(t.drop_last() == all.take(nf + i));
            assert(t.last() == all[nf + i]);
        }
        insert_event(&mut out, e);
    }
    proof {
        assert(all.take(nf + nc) =~= all);
    }
    out
}

} // verus!
