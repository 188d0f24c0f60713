//! Turning a catalogue of gears into a question Insight can answer, and its
//! answer back into gears: group the catalogue by repository, name the
//! directory each crate publishes from, and put the answers back together
//! per gear.

use vstd::prelude::*;

use crate::text::string_views;
use vstd::string::StringSliceAdditionalSpecFns;
use vstd::string::StrSliceExecFns;
use vstd::utf8::encode_utf8;

use crate::insight::port::{
    DeliveryPage, DeliveryPoint, DeliveryTotals, PullRequestPage, PullRequestTotals, PullRequestTotalsV,
};

use crate::numbers::{
    all_digits, lemma_digits_value_bound, padded, padded_of, parse_i64, parse_i64_in, parse_unsigned,
    parse_unsigned_in, pow10,
};
use crate::text::{
    chars_of, find, find_exec, is_alnum, is_alnum_char, lex_lt, opt_view, push_all, push_str, seq_lt,
    slice_of, split_char,
    split_char_exec, string_of, strip_prefix, strip_prefix_exec, strip_suffix, strip_suffix_exec,
    str_eq, trim, trim_chars, trim_end_char, trim_end_char_exec, trim_start_str, trim_start_str_exec,
    vec_views,
};

verus! {

/// At most this many repositories are queried for one answer.
pub const REPO_LIMIT: usize = 3;

/// The most components one repository's query may declare.
pub const MAX_COMPONENTS: usize = 200;

/// The most weekly buckets one window asks for.
pub const MAX_BUCKETS: usize = 80;

// ── naming a repository ──────────────────────────────────────────────────────

/// What follows the scheme, if the url has one.
pub open spec fn after_scheme(u: Seq<char>) -> Seq<char> {
    match find(u, "://"@) {
        Some(i) => u.skip(i + 3),
        None => u,
    }
}

/// The url's path: scheme, `www.` and trailing slashes gone, and one `.git`.
pub open spec fn repo_path(u: Seq<char>) -> Seq<char> {
    let p = trim_end_char(trim_start_str(after_scheme(u), "www."@), '/');
    match strip_suffix(p, ".git"@) {
        Some(q) => q,
        None => p,
    }
}

/// A repository owner or name as the warehouse keys it.
pub open spec fn repo_part_ok(s: Seq<char>) -> bool {
    s.len() > 0 && forall|i: int|
        0 <= i < s.len() ==> is_alnum(#[trigger] s[i]) || s[i] == '.' || s[i] == '_' || s[i] == '-'
}

/// `owner/name` out of a repository url, or `None` for anything that does
/// not reduce to exactly that shape: the host, then exactly two parts.
pub open spec fn normalize_repo_of(url: Option<Seq<char>>) -> Option<Seq<char>> {
    match url {
        None => None,
        Some(u) => {
            let t = trim(u);
            if t.len() == 0 {
                None
            } else {
                let parts = split_char(repo_path(t), '/');
                if parts.len() != 3 {
                    None
                } else if repo_part_ok(parts[1]) && repo_part_ok(parts[2]) {
                    Some(parts[1] + "/"@ + parts[2])
                } else {
                    None
                }
            }
        },
    }
}

fn part_ok(s: &Vec<char>) -> (r: bool)
    ensures
        r == repo_part_ok(s@),
{
    if s.len() == 0 {
        return false;
    }
    let n = s.len();
    for i in 0..n
        invariant
            n == s@.len(),
            forall|j: int| 0 <= j < i ==> is_alnum(#[trigger] s@[j]) || s@[j] == '.' || s@[j] == '_' || s@[j] == '-',
    {
        let c = s[i];
        if !(is_alnum_char(c) || c == '.' || c == '_' || c == '-') {
            return false;
        }
    }
    true
}

/// `https://github.com/constructorfabric/gears-rust` → `constructorfabric/gears-rust`.
///
/// Anything that does not reduce to exactly that shape is refused rather than
/// guessed at.
pub fn normalize_repo(url: Option<&str>) -> (out: Option<String>)
    ensures
        opt_string_view(out) == normalize_repo_of(match url {
            Some(u) => Some(u@),
            None => None,
        }),
{
    let url = match url {
        Some(u) => u,
        None => return None,
    };
    let all = chars_of(url);
    let t = trim_chars(&all);
    if t.len() == 0 {
        return None;
    }
    let path = repo_path_exec(&t);
    let parts = split_char_exec(&path, '/');
    if parts.len() != 3 {
        return None;
    }
    proof {
        assert(vec_views(parts@)[1] == parts@[1]@);
        assert(vec_views(parts@)[2] == parts@[2]@);
    }
    if !part_ok(&parts[1]) || !part_ok(&parts[2]) {
        return None;
    }
    let mut out: Vec<char> = Vec::new();
    push_all(&mut out, &parts[1]);
    push_str(&mut out, "/");
    push_all(&mut out, &parts[2]);
    Some(string_of(&out))
}

fn after_scheme_exec(t: &Vec<char>) -> (r: Vec<char>)
    ensures
        r@ == after_scheme(t@),
{
    let sep = chars_of("://");
    let tl = t.len();
    match find_exec(t, &sep) {
        Some(i) => {
            proof {
                reveal_strlit("://");
                assert(sep@.len() == 3);
                assert(crate::text::occurs_at(t@, sep@, i as int));
                assert(t@.skip(i + 3) == t@.subrange(i + 3, t@.len() as int));
                assert(i + 3 <= tl);
            }
            slice_of(t, i + 3, t.len())
        },
        None => {
            proof {
                assert(t@.subrange(0, t@.len() as int) == t@);
            }
            slice_of(t, 0, t.len())
        },
    }
}

fn repo_path_exec(t: &Vec<char>) -> (r: Vec<char>)
    ensures
        r@ == repo_path(t@),
{
    let after = after_scheme_exec(t);
    proof {
        reveal_strlit("www.");
    }
    let no_www = trim_start_str_exec(&after, "www.");
    let path = trim_end_char_exec(&no_www, '/');
    match strip_suffix_exec(&path, ".git") {
        Some(q) => q,
        None => path,
    }
}

pub open spec fn opt_string_view(o: Option<String>) -> Option<Seq<char>> {
    match o {
        Some(s) => Some(s@),
        None => None,
    }
}

/// The directory a crate publishes from: `cf-gears-` stripped, or failing
/// that `cf-`, or the name as it is.
pub open spec fn gear_segment_of(name: Seq<char>) -> Seq<char> {
    match strip_prefix(name, "cf-gears-"@) {
        Some(r) => r,
        None => match strip_prefix(name, "cf-"@) {
            Some(r) => r,
            None => name,
        },
    }
}

/// The directory a gear's crate most likely publishes from. The longer prefix
/// is stripped first.
pub fn gear_segment(crate_name: &str) -> (out: String)
    ensures
        out@ == gear_segment_of(crate_name@),
{
    let v = chars_of(crate_name);
    match strip_prefix_exec(&v, "cf-gears-") {
        Some(r) => string_of(&r),
        None => match strip_prefix_exec(&v, "cf-") {
            Some(r) => string_of(&r),
            None => crate_name.to_owned(),
        },
    }
}

// ── days, without a date library ─────────────────────────────────────────────

/// Howard Hinnant's `days_from_civil`: days since 1970-01-01 of a proleptic
/// Gregorian date, counting the year from March so the leap day is its last.
pub open spec fn days_from_civil_of(y: int, m: int, d: int) -> int {
    let y2 = if m <= 2 { y - 1 } else { y };
    let era = y2 / 400;
    let yoe = y2 - era * 400;
    let mp = if m > 2 { m - 3 } else { m + 9 };
    let doy = (153 * mp + 2) / 5 + d - 1;
    let doe = yoe * 365 + yoe / 4 - yoe / 100 + doy;
    era * 146097 + doe - 719468
}

/// The inverse: the civil date of a day count.
pub open spec fn civil_from_days_of(z0: int) -> (int, int, int) {
    let z = z0 + 719468;
    let era = z / 146097;
    let doe = z - era * 146097;
    let yoe = (doe - doe / 1460 + doe / 36524 - doe / 146096) / 365;
    let y = yoe + era * 400;
    let doy = doe - (365 * yoe + yoe / 4 - yoe / 100);
    let mp = tdiv(5 * doy + 2, 153);
    let d = doy - tdiv(153 * mp + 2, 5) + 1;
    let m = if mp < 10 { mp + 3 } else { mp - 9 };
    (if m <= 2 { y + 1 } else { y }, m, d)
}

pub open spec fn is_leap(year: int) -> bool {
    year % 4 == 0 && (year % 100 != 0 || year % 400 == 0)
}

pub open spec fn days_in_month_of(year: int, month: int) -> int {
    if month == 1 || month == 3 || month == 5 || month == 7 || month == 8 || month == 10 || month
        == 12 {
        31
    } else if month == 4 || month == 6 || month == 9 || month == 11 {
        30
    } else if month == 2 && is_leap(year) {
        29
    } else if month == 2 {
        28
    } else {
        0
    }
}

/// `YYYY-MM-DD` as a day count, or `None` for anything else and for a date
/// that does not exist.
#[verifier::opaque]
pub open spec fn parse_day_of(bs: Seq<u8>) -> Option<int> {
    if bs.len() != 10 || bs[4] != 45 || bs[7] != 45 {
        None
    } else {
        match (
            parse_i64(bs.subrange(0, 4)),
            parse_unsigned(bs.subrange(5, 7), 4294967295),
            parse_unsigned(bs.subrange(8, 10), 4294967295),
        ) {
            (Some(y), Some(m), Some(d)) => if 1 <= m <= 12 && 1 <= d <= days_in_month_of(y, m as int) {
                Some(days_from_civil_of(y, m as int, d as int))
            } else {
                None
            },
            _ => None,
        }
    }
}

/// Truncating division, as `/` computes it on signed integers.
pub open spec fn tdiv(a: int, b: int) -> int {
    if a >= 0 {
        a / b
    } else {
        -((-a) / b)
    }
}

proof fn lemma_floor_div_shift(a: int, b: int)
    requires
        a < 0,
        b > 0,
    ensures
        tdiv(a - (b - 1), b) == a / b,
{
    let n = -a;
    let q = (n + b - 1) / b;
    let r = (n + b - 1) % b;
    vstd::arithmetic::div_mod::lemma_fundamental_div_mod(n + b - 1, b);
    assert(0 <= r < b) by {
        vstd::arithmetic::div_mod::lemma_mod_bound(n + b - 1, b);
    }
    assert(a == (-q) * b + (b - 1 - r)) by (nonlinear_arith)
        requires
            n + b - 1 == b * q + r,
            n == -a,
    ;
    vstd::arithmetic::div_mod::lemma_fundamental_div_mod_converse_div(a, b, -q, b - 1 - r);
}

proof fn lemma_div_bounds(x: int, b: int)
    requires
        0 <= x,
        b > 0,
    ensures
        0 <= x / b <= x,
        x % b == x - b * (x / b),
{
    vstd::arithmetic::div_mod::lemma_fundamental_div_mod(x, b);
    vstd::arithmetic::div_mod::lemma_div_pos_is_pos(x, b);
    vstd::arithmetic::div_mod::lemma_div_is_ordered_by_denominator(x, 1, b);
}

pub(crate) fn days_from_civil(y: i64, m: u32, d: u32) -> (out: i64)
    requires
        -1_000_000_000_000 <= y <= 1_000_000_000_000,
    ensures
        out == days_from_civil_of(y as int, m as int, d as int),
{
    let y = if m <= 2 { y - 1 } else { y };
    let era = (if y >= 0 { y } else { y - 399 }) / 400;
    proof {
        if y < 0 {
            lemma_floor_div_shift(y as int, 400);
        }
        vstd::arithmetic::div_mod::lemma_fundamental_div_mod(y as int, 400);
        vstd::arithmetic::div_mod::lemma_mod_bound(y as int, 400);
    }
    let yoe = y - era * 400;
    let m = m as i64;
    let doy = (153 * (if m > 2 { m - 3 } else { m + 9 }) + 2) / 5 + (d as i64) - 1;
    proof {
        lemma_div_bounds(yoe as int, 4);
        lemma_div_bounds(yoe as int, 100);
    }
    let doe = yoe * 365 + yoe / 4 - yoe / 100 + doy;
    era * 146_097 + doe - 719_468
}

proof fn lemma_yoe_bounds(doe: int)
    requires
        0 <= doe < 146097,
    ensures
        0 <= doe - doe / 1460 + doe / 36524 - doe / 146096 <= 146100,
        0 <= (doe - doe / 1460 + doe / 36524 - doe / 146096) / 365 <= 400,
{
    lemma_div_bounds(doe, 1460);
    lemma_div_bounds(doe, 36524);
    lemma_div_bounds(doe, 146096);
    vstd::arithmetic::div_mod::lemma_div_is_ordered(doe, 146096, 36524);
    vstd::arithmetic::div_mod::lemma_div_is_ordered(doe, 146096, 146096);
    let n = doe - doe / 1460 + doe / 36524 - doe / 146096;
    assert(146096int / 36524 == 4);
    assert(146096int / 146096 == 1);
    lemma_div_bounds(n, 365);
    vstd::arithmetic::div_mod::lemma_div_is_ordered(n, 146100, 365);
    assert(146100int / 365 == 400);
}

fn era_start(z: i64) -> (out: (i64, i64))
    requires
        -2_000_000_000_000_000 <= z <= 2_000_000_000_000_000,
    ensures
        out.0 == z as int / 146097,
        out.1 == z as int - (z as int / 146097) * 146097,
        0 <= out.1 < 146097,
{
    let era = (if z >= 0 { z } else { z - 146_096 }) / 146_097;
    proof {
        if z < 0 {
            lemma_floor_div_shift(z as int, 146097);
        }
        vstd::arithmetic::div_mod::lemma_fundamental_div_mod(z as int, 146097);
        vstd::arithmetic::div_mod::lemma_mod_bound(z as int, 146097);
    }
    (era, z - era * 146_097)
}

fn civil_from_days(z: i64) -> (out: (i64, u32, u32))
    requires
        -1_000_000_000_000_000 <= z <= 1_000_000_000_000_000,
    ensures
        out.0 == civil_from_days_of(z as int).0,
        out.1 == civil_from_days_of(z as int).1 as u32,
        out.2 == civil_from_days_of(z as int).2 as u32,
{
    let z = z + 719_468;
    let (era, doe) = era_start(z);
    proof {
        lemma_yoe_bounds(doe as int);
        lemma_div_bounds(doe as int, 1460);
        lemma_div_bounds(doe as int, 36524);
        lemma_div_bounds(doe as int, 146096);
    }
    let yoe = (doe - doe / 1460 + doe / 36_524 - doe / 146_096) / 365;
    proof {
        lemma_div_bounds(yoe as int, 4);
        lemma_div_bounds(yoe as int, 100);
    }
    let y = yoe + era * 400;
    let doy = doe - (365 * yoe + yoe / 4 - yoe / 100);
    let mp = (5 * doy + 2) / 153;
    let d = doy - (153 * mp + 2) / 5 + 1;
    let m = if mp < 10 { mp + 3 } else { mp - 9 };
    (if m <= 2 { y + 1 } else { y }, m as u32, d as u32)
}


fn days_in_month(year: i64, month: u32) -> (out: u32)
    ensures
        out == days_in_month_of(year as int, month as int),
{
    match month {
        1 | 3 | 5 | 7 | 8 | 10 | 12 => 31,
        4 | 6 | 9 | 11 => 30,
        2 if year % 4 == 0 && (year % 100 != 0 || year % 400 == 0) => 29,
        2 => 28,
        _ => 0,
    }
}

proof fn lemma_short_year(bs: Seq<u8>)
    requires
        bs.len() == 4,
        parse_i64(bs) is Some,
    ensures
        -9999 <= parse_i64(bs).unwrap() <= 9999,
{
    reveal_with_fuel(pow10, 5);
    if bs[0] == 45 {
        lemma_digits_value_bound(bs.drop_first());
    } else if bs[0] == 43 {
        lemma_digits_value_bound(bs.drop_first());
    } else {
        lemma_digits_value_bound(bs);
    }
}

/// `YYYY-MM-DD` as days since the epoch.
fn parse_day(value: &str) -> (out: Option<i64>)
    ensures
        match out {
            Some(v) => parse_day_of(value.spec_bytes()) == Some(v as int),
            None => parse_day_of(value.spec_bytes()) is None,
        },
{
    proof {
        reveal(parse_day_of);
    }
    let bytes = value.as_bytes();
    if bytes.len() != 10 || bytes[4] != 45 || bytes[7] != 45 {
        return None;
    }
    let year = match parse_i64_in(bytes, 0, 4) {
        Some(y) => y,
        None => return None,
    };
    let month = match parse_unsigned_in(bytes, 5, 7, 4294967295) {
        Some(m) => m as u32,
        None => return None,
    };
    let day = match parse_unsigned_in(bytes, 8, 10, 4294967295) {
        Some(d) => d as u32,
        None => return None,
    };
    proof {
        lemma_short_year(bytes@.subrange(0, 4));
    }
    if !(1 <= month && month <= 12) || day < 1 || day > days_in_month(year, month) {
        return None;
    }
    Some(days_from_civil(year, month, day))
}

/// `YYYY-MM-DD` of a day count, the year zero-padded to four places.
#[verifier::opaque]
pub open spec fn format_day_of(days: int) -> Seq<char> {
    let (y, m, d) = civil_from_days_of(days);
    padded(y, 4) + "-"@ + padded((m as u32) as int, 2) + "-"@ + padded((d as u32) as int, 2)
}

fn format_day(days: i64) -> (out: String)
    requires
        -1_000_000_000_000_000 <= days <= 1_000_000_000_000_000,
    ensures
        out@ == format_day_of(days as int),
{
    proof {
        reveal(format_day_of);
    }
    let (y, m, d) = civil_from_days(days);
    let mut out = padded_of(y, 4);
    push_str(&mut out, "-");
    let mm = padded_of(m as i64, 2);
    push_all(&mut out, &mm);
    push_str(&mut out, "-");
    let dd = padded_of(d as i64, 2);
    push_all(&mut out, &dd);
    string_of(&out)
}

/// 0 for Monday. Day 0 of the epoch (1970-01-01) was a Thursday.
pub open spec fn weekday_of(days: int) -> int {
    (days + 3) % 7
}

fn weekday_from_monday(days: i64) -> (out: u32)
    requires
        days <= 1_000_000_000_000_000,
    ensures
        out == weekday_of(days as int),
{
    let r = (days + 3) % 7;
    let r = if r < 0 { r + 7 } else { r };
    proof {
        let a = days as int + 3;
        vstd::arithmetic::div_mod::lemma_fundamental_div_mod(a, 7);
        vstd::arithmetic::div_mod::lemma_mod_bound(a, 7);
        if a < 0 {
            let t = (-a) / 7;
            vstd::arithmetic::div_mod::lemma_fundamental_div_mod(-a, 7);
            vstd::arithmetic::div_mod::lemma_mod_bound(-a, 7);
            let rr = (-a) % 7;
            if rr == 0 {
                vstd::arithmetic::div_mod::lemma_fundamental_div_mod_converse_mod(a, 7, -t, 0);
            } else {
                assert(a == (-t - 1) * 7 + (7 - rr)) by (nonlinear_arith)
                    requires
                        -a == 7 * t + rr,
                ;
                vstd::arithmetic::div_mod::lemma_fundamental_div_mod_converse_mod(a, 7, -t - 1, 7 - rr);
            }
        }
    }
    r as u32
}

/// Every weekly bucket start from the Monday at or before `from` to `to`,
/// at most [`MAX_BUCKETS`] of them; none when either end does not parse or
/// the window runs backwards.
pub open spec fn week_starts_of(from: Seq<char>, to: Seq<char>) -> Seq<Seq<char>> {
    match (parse_day_of(encode_utf8(from)), parse_day_of(encode_utf8(to))) {
        (Some(start), Some(end)) => if start > end {
            seq![]
        } else {
            let monday = start - weekday_of(start);
            let n = (end - monday) / 7 + 1;
            let count = if n < MAX_BUCKETS { n } else { MAX_BUCKETS as int };
            Seq::new(count as nat, |k: int| format_day_of(monday + 7 * k))
        },
        _ => seq![],
    }
}


proof fn lemma_parsed_day_bounds(bs: Seq<u8>)
    requires
        parse_day_of(bs) is Some,
    ensures
        -10_000_000 <= parse_day_of(bs).unwrap() <= 10_000_000,
{
    reveal(parse_day_of);
    lemma_short_year(bs.subrange(0, 4));
    let y = parse_i64(bs.subrange(0, 4)).unwrap();
    let m = parse_unsigned(bs.subrange(5, 7), 4294967295).unwrap() as int;
    let d = parse_unsigned(bs.subrange(8, 10), 4294967295).unwrap() as int;
    let y2 = if m <= 2 { y - 1 } else { y };
    vstd::arithmetic::div_mod::lemma_fundamental_div_mod(y2, 400);
    vstd::arithmetic::div_mod::lemma_mod_bound(y2, 400);
    let era = y2 / 400;
    assert(-26 <= era <= 25) by {
        vstd::arithmetic::div_mod::lemma_div_is_ordered(y2, 10000, 400);
        vstd::arithmetic::div_mod::lemma_div_is_ordered(-10001, y2, 400);
    }
    let yoe = y2 - era * 400;
    lemma_div_bounds(yoe, 4);
    lemma_div_bounds(yoe, 100);
    let mp = if m > 2 { m - 3 } else { m + 9 };
    lemma_div_bounds(153 * mp + 2, 5);
}

/// Every weekly bucket start between two dates, inclusive, snapped back to
/// Monday: a quiet week draws as an empty bar rather than being skipped.
pub fn week_starts(from: &str, to: &str) -> (out: Vec<String>)
    ensures
        string_views(out@) == week_starts_of(from@, to@),
{
    let (start, end) = match (parse_day(from), parse_day(to)) {
        (Some(s), Some(e)) => (s, e),
        _ => return Vec::new(),
    };
    if start > end {
        return Vec::new();
    }
    proof {
        lemma_parsed_day_bounds(from.spec_bytes());
        lemma_parsed_day_bounds(to.spec_bytes());
    }
    let monday = start - (weekday_from_monday(start) as i64);
    let n = (end - monday) / 7 + 1;
    let count: usize = if n < MAX_BUCKETS as i64 { n as usize } else { MAX_BUCKETS };
    let mut out: Vec<String> = Vec::new();
    let mut day = monday;
    let mut k: usize = 0;
    while k < count
        invariant
            -10_000_000 <= monday <= 10_000_000,
            count <= MAX_BUCKETS,
            k <= count,
            day == monday + 7 * k,
            out@.len() == k,
            string_views(out@) == Seq::new(k as nat, |j: int| format_day_of(monday + 7 * j)),
        decreases count - k,
    {
        let s = format_day(day);
        proof {
            let ghost prev = string_views(out@);
            assert(s@ == format_day_of(monday + 7 * k));
            assert forall|j: int| 0 <= j < k + 1 implies #[trigger] string_views(out@.push(s))[j]
                == format_day_of(monday + 7 * j) by {
                if j < k {
                    assert(out@.push(s)[j] == out@[j]);
                    assert(prev[j] == format_day_of(monday + 7 * j));
                }
            }
            assert(string_views(out@.push(s)) =~= Seq::new((k + 1) as nat, |j: int| format_day_of(monday + 7 * j)));
        }
        out.push(s);
        day = day + 7;
        k = k + 1;
    }
    out
}

/// Seconds since the Unix epoch by the system clock
/// (`std::time::SystemTime::now`, measured from `UNIX_EPOCH`), or 0 when the
/// clock reads before the epoch. Nothing is claimed of the value: it is
/// whatever the machine's clock says at the moment of the call.
#[verifier::external_body]
pub(crate) fn now_unix_secs() -> (out: u64) {
    std::time::SystemTime::now().duration_since(std::time::UNIX_EPOCH).map_or(0, |d| d.as_secs())
}

/// The UTC day a window of `days` days ending today starts on, counted in
/// days since the epoch: today itself for a window of 0 or 1 days.
pub open spec fn window_start_of(now_secs: u64, days: u32) -> int {
    now_secs as int / 86400 - (if days == 0 { 0 } else { days - 1 })
}

/// `YYYY-MM-DD`, `days` before the day `now_secs` falls on inclusive, in UTC.
pub fn days_before(now_secs: u64, days: u32) -> (out: String)
    ensures
        out@ == format_day_of(window_start_of(now_secs, days)),
{
    let today = (now_secs / 86_400) as i64;
    let back = if days == 0 { 0 } else { days - 1 };
    format_day(today - back as i64)
}

/// `YYYY-MM-DD`, `days` before today inclusive, in UTC: the warehouse
/// buckets on UTC days, so a browser either side of midnight asks for the
/// window its numbers are counted in.
pub fn days_ago(days: u32) -> (out: String)
    ensures
        exists|now_secs: u64| out@ == format_day_of(#[trigger] window_start_of(now_secs, days)),
{
    let now = now_unix_secs();
    let out = days_before(now, days);
    proof {
        assert(out@ == format_day_of(window_start_of(now, days)));
    }
    out
}

// ── planning the questions ───────────────────────────────────────────────────

/// What planning reads of one catalogue entry: its name and the repository
/// it declares, each absent when the entry does not carry it as a string.
#[derive(Debug, Clone, PartialEq, Eq)]
pub struct CatalogueEntry {
    pub name: Option<String>,
    pub repository: Option<String>,
}

/// One repository, and the components of it worth asking about.
#[derive(Debug, Clone, PartialEq, Eq)]
pub struct RepoPlan {
    /// `owner/name`.
    pub repository: String,
    /// `(catalogue name, path segment)`, in catalogue order.
    pub components: Vec<(String, String)>,
}

pub struct RepoPlanV {
    pub repository: Seq<char>,
    pub components: Seq<(Seq<char>, Seq<char>)>,
}

pub open spec fn pair_views(v: Seq<(String, String)>) -> Seq<(Seq<char>, Seq<char>)> {
    v.map_values(|p: (String, String)| (p.0@, p.1@))
}

impl View for RepoPlan {
    type V = RepoPlanV;

    open spec fn view(&self) -> RepoPlanV {
        RepoPlanV { repository: self.repository@, components: pair_views(self.components@) }
    }
}

pub open spec fn plan_views(v: Seq<RepoPlan>) -> Seq<RepoPlanV> {
    v.map_values(|p: RepoPlan| p@)
}

/// A repository while the catalogue is being read: its planned components,
/// and every segment handed out in it (a capped-off component still takes
/// its segment).
pub struct GroupV {
    pub repo: Seq<char>,
    pub comps: Seq<(Seq<char>, Seq<char>)>,
    pub used: Seq<Seq<char>>,
}

/// The entry's name, trimmed, when it has a non-blank one.
pub open spec fn entry_name(e: CatalogueEntry) -> Option<Seq<char>> {
    match e.name {
        Some(n) => if trim(n@).len() > 0 { Some(trim(n@)) } else { None },
        None => None,
    }
}

pub open spec fn group_index(gs: Seq<GroupV>, repo: Seq<char>, i: nat) -> Option<int>
    decreases gs.len() - i,
{
    if i >= gs.len() {
        None
    } else if gs[i as int].repo == repo {
        Some(i as int)
    } else {
        group_index(gs, repo, i + 1)
    }
}

/// One entry read into the groups: a segment that is already taken in the
/// repository falls back to the full name, and a repository at the cap
/// plans no more components.
pub open spec fn add_entry(gs: Seq<GroupV>, e: CatalogueEntry) -> Seq<GroupV> {
    match (entry_name(e), normalize_repo_of(opt_view(e.repository))) {
        (Some(name), Some(repo)) => {
            let stripped = gear_segment_of(name);
            match group_index(gs, repo, 0) {
                Some(i) => {
                    let g = gs[i];
                    let seg = if g.used.contains(stripped) { name } else { stripped };
                    gs.update(
                        i,
                        GroupV {
                            repo,
                            comps: if g.comps.len() < MAX_COMPONENTS { g.comps.push((name, seg)) } else { g.comps },
                            used: g.used.push(seg),
                        },
                    )
                },
                None => gs.push(GroupV { repo, comps: seq![(name, stripped)], used: seq![stripped] }),
            }
        },
        _ => gs,
    }
}

/// The catalogue grouped by repository, repositories in first-seen order.
pub open spec fn groups_of(es: Seq<CatalogueEntry>) -> Seq<GroupV>
    decreases es.len(),
{
    if es.len() == 0 {
        seq![]
    } else {
        add_entry(groups_of(es.drop_last()), es.last())
    }
}

/// The busier repository first, then the one whose name sorts first.
pub open spec fn plan_before(a: RepoPlanV, b: RepoPlanV) -> bool {
    a.components.len() > b.components.len() || (a.components.len() == b.components.len()
        && seq_lt(a.repository, b.repository))
}

pub open spec fn plan_insert_at(s: Seq<RepoPlanV>, x: RepoPlanV) -> int
    decreases s.len(),
{
    if s.len() == 0 {
        0
    } else if plan_before(x, s[0]) {
        0
    } else {
        1 + plan_insert_at(s.drop_first(), x)
    }
}

/// A stable sort by [`plan_before`].
pub open spec fn sort_plans(s: Seq<RepoPlanV>) -> Seq<RepoPlanV>
    decreases s.len(),
{
    if s.len() == 0 {
        s
    } else {
        let sorted = sort_plans(s.drop_last());
        sorted.insert(plan_insert_at(sorted, s.last()), s.last())
    }
}

pub open spec fn group_plans(gs: Seq<GroupV>) -> Seq<RepoPlanV> {
    gs.map_values(|g: GroupV| RepoPlanV { repository: g.repo, components: g.comps })
}

/// The plan: the busiest [`REPO_LIMIT`] repositories, each with its
/// components in catalogue order.
pub open spec fn plan_of(es: Seq<CatalogueEntry>) -> Seq<RepoPlanV> {
    let sorted = sort_plans(group_plans(groups_of(es)));
    if sorted.len() <= REPO_LIMIT {
        sorted
    } else {
        sorted.take(REPO_LIMIT as int)
    }
}

struct RepoGroup {
    repo: String,
    comps: Vec<(String, String)>,
    used: Vec<String>,
}

impl View for RepoGroup {
    type V = GroupV;

    closed spec fn view(&self) -> GroupV {
        GroupV { repo: self.repo@, comps: pair_views(self.comps@), used: string_views(self.used@) }
    }
}

spec fn group_views(v: Seq<RepoGroup>) -> Seq<GroupV> {
    v.map_values(|g: RepoGroup| g@)
}

fn entry_name_exec(e: &CatalogueEntry) -> (out: Option<String>)
    ensures
        opt_string_view(out) == entry_name(*e),
{
    match &e.name {
        Some(n) => {
            let t = trim_chars(&chars_of(n.as_str()));
            if t.len() > 0 {
                Some(string_of(&t))
            } else {
                None
            }
        },
        None => None,
    }
}

fn find_group(gs: &Vec<RepoGroup>, repo: &String) -> (out: Option<usize>)
    ensures
        match out {
            Some(i) => group_index(group_views(gs@), repo@, 0) == Some(i as int) && i < gs@.len(),
            None => group_index(group_views(gs@), repo@, 0) is None,
        },
{
    let n = gs.len();
    let mut i: usize = 0;
    while i < n
        invariant
            n == gs@.len(),
            i <= n,
            group_index(group_views(gs@), repo@, 0) == group_index(group_views(gs@), repo@, i as nat),
        decreases n - i,
    {
        proof {
            assert(group_views(gs@)[i as int] == gs@[i as int]@);
        }
        if str_eq(gs[i].repo.as_str(), repo.as_str()) {
            return Some(i);
        }
        i = i + 1;
    }
    None
}

fn contains_string(v: &Vec<String>, x: &String) -> (r: bool)
    ensures
        r == string_views(v@).contains(x@),
{
    let n = v.len();
    for i in 0..n
        invariant
            n == v@.len(),
            forall|k: int| 0 <= k < i ==> #[trigger] string_views(v@)[k] != x@,
    {
        proof {
            assert(string_views(v@)[i as int] == v@[i as int]@);
        }
        if str_eq(v[i].as_str(), x.as_str()) {
            return true;
        }
    }
    false
}

fn copy_pairs(v: &Vec<(String, String)>) -> (out: Vec<(String, String)>)
    ensures
        pair_views(out@) == pair_views(v@),
{
    let mut out: Vec<(String, String)> = Vec::new();
    let n = v.len();
    for i in 0..n
        invariant
            n == v@.len(),
            out@.len() == i,
            pair_views(out@) == pair_views(v@).take(i as int),
    {
        let p = (v[i].0.clone(), v[i].1.clone());
        proof {
            let ghost w = pair_views(out@.push(p));
            assert(w.len() == i + 1);
            assert forall|k: int| 0 <= k < i + 1 implies #[trigger] w[k] == pair_views(v@).take(i + 1)[k] by {
                if k < i {
                    assert(out@.push(p)[k] == out@[k]);
                    assert(pair_views(out@)[k] == pair_views(v@).take(i as int)[k]);
                }
            }
            assert(w =~= pair_views(v@).take(i + 1));
        }
        out.push(p);
    }
    proof {
        assert(pair_views(v@).take(n as int) =~= pair_views(v@));
    }
    out
}

/// `plan_before(a, b)` for two built plans.
fn plan_first(a: &RepoPlan, b: &RepoPlan) -> (r: bool)
    ensures
        r == plan_before(a@, b@),
{
    let la = a.components.len();
    let lb = b.components.len();
    proof {
        assert(pair_views(a.components@).len() == la);
        assert(pair_views(b.components@).len() == lb);
    }
    if la != lb {
        return la > lb;
    }
    lex_lt(&chars_of(a.repository.as_str()), &chars_of(b.repository.as_str()))
}

fn read_entry(groups: &mut Vec<RepoGroup>, e: &CatalogueEntry)
    ensures
        group_views(final(groups)@) == add_entry(group_views(old(groups)@), *e),
{
    let name = match entry_name_exec(e) {
        Some(n) => n,
        None => return,
    };
    let repo = match &e.repository {
        Some(r) => normalize_repo(Some(r.as_str())),
        None => normalize_repo(None),
    };
    let repo = match repo {
        Some(r) => r,
        None => return,
    };
    let stripped = gear_segment(name.as_str());
    let ghost gs = group_views(groups@);
    match find_group(groups, &repo) {
        Some(i) => {
            let ghost before = groups@;
            let mut g = groups.remove(i);
            let ghost old_g = g@;
            proof {
                assert(old_g == gs[i as int]);
                assert(groups@ == before.remove(i as int));
            }
            let seg = if contains_string(&g.used, &stripped) {
                name.clone()
            } else {
                stripped
            };
            let cap = g.comps.len() < MAX_COMPONENTS;
            proof {
                assert(pair_views(g.comps@).len() == g.comps@.len());
            }
            if cap {
                let ghost c0 = g.comps@;
                g.comps.push((name, seg.clone()));
                proof {
                    assert(pair_views(g.comps@) =~= pair_views(c0).push((name@, seg@)));
                }
            }
            let ghost u0 = g.used@;
            g.used.push(seg);
            proof {
                assert(string_views(g.used@) =~= string_views(u0).push(seg@));
            }
            g.repo = repo;
            let ghost newg = g;
            groups.insert(i, g);
            proof {
                assert(groups@ =~= before.update(i as int, newg));
                assert(group_views(groups@) =~= gs.update(i as int, newg@));
                assert(group_views(groups@) =~= add_entry(gs, *e));
            }
        },
        None => {
            let ghost nm = name@;
            let ghost st = stripped@;
            let mut comps: Vec<(String, String)> = Vec::new();
            comps.push((name, stripped.clone()));
            let mut used: Vec<String> = Vec::new();
            used.push(stripped);
            proof {
                assert(pair_views(comps@) =~= seq![(nm, st)]);
                assert(string_views(used@) =~= seq![st]);
            }
            let ghost g0 = groups@;
            groups.push(RepoGroup { repo, comps, used });
            proof {
                assert(groups@ == g0.push(groups@.last()));
                assert(group_views(groups@) =~= gs.push(groups@.last()@));
                assert(group_views(groups@) =~= add_entry(gs, *e));
            }
        },
    }
}

/// Group the catalogue by repository and name each gear's directory; the
/// busiest [`REPO_LIMIT`] repositories are kept, ties broken by name.
///
/// An entry without a non-blank name or a usable repository is left out. Two
/// crates that strip to the same directory would both match the same files,
/// so the second falls back to its full crate name; a repository declares at
/// most [`MAX_COMPONENTS`] components.
pub fn plan_requests(components: &[CatalogueEntry]) -> (out: Vec<RepoPlan>)
    ensures
        plan_views(out@) == plan_of(components@),
{
    let mut groups: Vec<RepoGroup> = Vec::new();
    let n = components.len();
    for i in 0..n
        invariant
            n == components@.len(),
            group_views(groups@) == groups_of(components@.take(i as int)),
    {
        proof {
            let t = components@.take(i + 1);
            assert(t.drop_last() =~= components@.take(i as int));
        }
        read_entry(&mut groups, &components[i]);
    }
    proof {
        assert(components@.take(n as int) =~= components@);
    }
    let ghost plans = group_plans(group_views(groups@));
    let mut out: Vec<RepoPlan> = Vec::new();
    let m = groups.len();
    for i in 0..m
        invariant
            m == groups@.len(),
            plans == group_plans(group_views(groups@)),
            plan_views(out@) == sort_plans(plans.take(i as int)),
    {
        let x = RepoPlan { repository: groups[i].repo.clone(), components: copy_pairs(&groups[i].comps) };
        proof {
            assert(group_views(groups@)[i as int] == groups@[i as int]@);
            assert(x@ == plans[i as int]);
        }
        let ghost sorted = plan_views(out@);
        let mut k: usize = 0;
        proof {
            assert(sorted.skip(0) == sorted);
        }
        while k < out.len() && !plan_first(&x, &out[k])
            invariant
                0 <= k <= out@.len(),
                sorted == plan_views(out@),
                plan_insert_at(sorted, x@) == k + plan_insert_at(sorted.skip(k as int), x@),
            decreases out@.len() - k,
        {
            proof {
                assert(sorted.skip(k as int)[0] == out@[k as int]@);
                assert(sorted.skip(k as int).drop_first() == sorted.skip(k + 1));
            }
            k += 1;
        }
        proof {
            if k < out@.len() {
                assert(sorted.skip(k as int)[0] == out@[k as int]@);
            }
            assert(plan_insert_at(sorted, x@) == k);
            let t = plans.take(i + 1);
            assert(t.drop_last() == plans.take(i as int));
            assert(t.last() == x@);
        }
        out.insert(k, x);
        proof {
            assert(plan_views(out@) =~= sorted.insert(k as int, plans[i as int]));
        }
    }
    proof {
        assert(plans.take(m as int) =~= plans);
    }
    if out.len() > REPO_LIMIT {
        let ghost full = plan_views(out@);
        out.truncate(REPO_LIMIT);
        proof {
            assert(plan_views(out@) =~= full.take(REPO_LIMIT as int));
        }
    }
    out
}

// ── joining the answers ──────────────────────────────────────────────────────

/// One gear's week in the trend.
#[derive(Debug, Clone, PartialEq, Eq)]
pub struct ActivityPoint {
    pub date: String,
    pub commits: u64,
    pub lines_added: i64,
    pub lines_removed: i64,
}

/// One gear's numbers over the window.
#[derive(Debug, Clone, PartialEq, Eq)]
pub struct GearActivity {
    pub gear: String,
    pub commits: u64,
    pub files_changed: u64,
    pub lines_added: i64,
    pub lines_removed: i64,
    pub authors: u64,
    /// Absent when the repository has no pull requests touching this gear.
    pub pull_requests: Option<PullRequestTotals>,
    /// Ascending by date, gaps filled with zeros.
    pub points: Vec<ActivityPoint>,
}

pub struct ActivityPointV {
    pub date: Seq<char>,
    pub commits: u64,
    pub lines_added: i64,
    pub lines_removed: i64,
}

impl View for ActivityPoint {
    type V = ActivityPointV;

    open spec fn view(&self) -> ActivityPointV {
        ActivityPointV {
            date: self.date@,
            commits: self.commits,
            lines_added: self.lines_added,
            lines_removed: self.lines_removed,
        }
    }
}

pub struct GearActivityV {
    pub gear: Seq<char>,
    pub commits: u64,
    pub files_changed: u64,
    pub lines_added: i64,
    pub lines_removed: i64,
    pub authors: u64,
    pub pull_requests: Option<PullRequestTotalsV>,
    pub points: Seq<ActivityPointV>,
}

pub open spec fn point_views(v: Seq<ActivityPoint>) -> Seq<ActivityPointV> {
    v.map_values(|p: ActivityPoint| p@)
}

pub open spec fn opt_pr_view(p: Option<PullRequestTotals>) -> Option<PullRequestTotalsV> {
    match p {
        Some(t) => Some(t@),
        None => None,
    }
}

impl View for GearActivity {
    type V = GearActivityV;

    open spec fn view(&self) -> GearActivityV {
        GearActivityV {
            gear: self.gear@,
            commits: self.commits,
            files_changed: self.files_changed,
            lines_added: self.lines_added,
            lines_removed: self.lines_removed,
            authors: self.authors,
            pull_requests: opt_pr_view(self.pull_requests),
            points: point_views(self.points@),
        }
    }
}

pub open spec fn gear_views(v: Seq<GearActivity>) -> Seq<GearActivityV> {
    v.map_values(|g: GearActivity| g@)
}

/// The first trend point at or after `i` for `component` in the bucket that
/// starts on `date`.
pub open spec fn hit_from(series: Seq<DeliveryPoint>, component: Seq<char>, date: Seq<char>, i: nat) -> Option<int>
    decreases series.len() - i,
{
    if i >= series.len() {
        None
    } else if series[i as int].component@ == component && series[i as int].date@ == date {
        Some(i as int)
    } else {
        hit_from(series, component, date, i + 1)
    }
}

/// A bucket of the trend: the first point the page has for it, or zeros.
pub open spec fn point_of(series: Seq<DeliveryPoint>, component: Seq<char>, date: Seq<char>) -> ActivityPointV {
    match hit_from(series, component, date, 0) {
        Some(k) => ActivityPointV {
            date,
            commits: series[k].commits,
            lines_added: series[k].lines_added,
            lines_removed: series[k].lines_removed,
        },
        None => ActivityPointV { date, commits: 0, lines_added: 0, lines_removed: 0 },
    }
}

/// One gear of one page, before any pull request is attached.
pub open spec fn gear_row(page: DeliveryPage, t: DeliveryTotals) -> GearActivityV {
    GearActivityV {
        gear: t.component@,
        commits: t.commits,
        files_changed: t.files_changed,
        lines_added: t.lines_added,
        lines_removed: t.lines_removed,
        authors: t.authors,
        pull_requests: None,
        points: week_starts_of(page.from@, page.to@).map_values(
            |d: Seq<char>| point_of(page.series@, t.component@, d),
        ),
    }
}

/// Every page's gears, page after page, each in the order its page ranked it.
pub open spec fn delivery_rows(pages: Seq<DeliveryPage>) -> Seq<GearActivityV>
    decreases pages.len(),
{
    if pages.len() == 0 {
        seq![]
    } else {
        delivery_rows(pages.drop_last()) + pages.last().totals@.map_values(
            |t: DeliveryTotals| gear_row(pages.last(), t),
        )
    }
}

/// Every pull-request row, page after page.
pub open spec fn pr_rows(pages: Seq<PullRequestPage>) -> Seq<PullRequestTotalsV>
    decreases pages.len(),
{
    if pages.len() == 0 {
        seq![]
    } else {
        pr_rows(pages.drop_last()) + pages.last().totals@.map_values(|t: PullRequestTotals| t@)
    }
}

/// The last pull-request row naming `gear`: a later row overwrites an earlier.
pub open spec fn last_pr(prs: Seq<PullRequestTotalsV>, gear: Seq<char>) -> Option<PullRequestTotalsV>
    decreases prs.len(),
{
    if prs.len() == 0 {
        None
    } else if prs.last().component == gear {
        Some(prs.last())
    } else {
        last_pr(prs.drop_last(), gear)
    }
}

/// No earlier row carries the same gear name.
pub open spec fn first_named(rows: Seq<GearActivityV>, i: int) -> bool {
    forall|j: int| 0 <= j < i ==> #[trigger] rows[j].gear != rows[i].gear
}

pub open spec fn with_pr(r: GearActivityV, p: Option<PullRequestTotalsV>) -> GearActivityV {
    GearActivityV {
        gear: r.gear,
        commits: r.commits,
        files_changed: r.files_changed,
        lines_added: r.lines_added,
        lines_removed: r.lines_removed,
        authors: r.authors,
        pull_requests: p,
        points: r.points,
    }
}

/// Pull requests attached to the first row of each gear.
pub open spec fn attach_prs(rows: Seq<GearActivityV>, prs: Seq<PullRequestTotalsV>) -> Seq<GearActivityV> {
    Seq::new(
        rows.len(),
        |i: int|
            with_pr(rows[i], if first_named(rows, i) { last_pr(prs, rows[i].gear) } else { None }),
    )
}

pub open spec fn any_truncated(pages: Seq<DeliveryPage>, prs: Seq<PullRequestPage>) -> bool {
    (exists|i: int| 0 <= i < pages.len() && #[trigger] pages[i].truncated)
        || (exists|i: int| 0 <= i < prs.len() && #[trigger] prs[i].truncated)
}

pub open spec fn window_of(pages: Seq<DeliveryPage>) -> Option<(Seq<char>, Seq<char>)> {
    if pages.len() > 0 && pages[0].from@.len() > 0 && pages[0].to@.len() > 0 {
        Some((pages[0].from@, pages[0].to@))
    } else {
        None
    }
}

pub open spec fn pair_view(p: Option<(String, String)>) -> Option<(Seq<char>, Seq<char>)> {
    match p {
        Some((a, b)) => Some((a@, b@)),
        None => None,
    }
}

proof fn lemma_delivery_rows_step(pages: Seq<DeliveryPage>, i: int)
    requires
        0 <= i < pages.len(),
    ensures
        delivery_rows(pages.take(i + 1)) == delivery_rows(pages.take(i)) + pages[i].totals@.map_values(
            |t: DeliveryTotals| gear_row(pages[i], t),
        ),
{
    assert(pages.take(i + 1).drop_last() =~= pages.take(i));
}

proof fn lemma_pr_rows_step(pages: Seq<PullRequestPage>, i: int)
    requires
        0 <= i < pages.len(),
    ensures
        pr_rows(pages.take(i + 1)) == pr_rows(pages.take(i)) + pages[i].totals@.map_values(
            |t: PullRequestTotals| t@,
        ),
{
    assert(pages.take(i + 1).drop_last() =~= pages.take(i));
}

proof fn lemma_first_named_same_prefix(a: Seq<GearActivityV>, b: Seq<GearActivityV>, q: int)
    requires
        0 <= q < a.len(),
        q < b.len(),
        forall|r: int| 0 <= r <= q ==> a[r] == b[r],
    ensures
        first_named(a, q) == first_named(b, q),
{
    if first_named(a, q) {
        assert forall|j: int| 0 <= j < q implies #[trigger] b[j].gear != b[q].gear by {
            assert(a[j] == b[j]);
            assert(a[j].gear != a[q].gear);
        }
    } else {
        let j = choose|j: int| 0 <= j < q && a[j].gear == a[q].gear;
        assert(b[j].gear == b[q].gear);
    }
}

fn find_point(series: &Vec<DeliveryPoint>, component: &String, date: &String) -> (out: Option<usize>)
    ensures
        match out {
            Some(k) => hit_from(series@, component@, date@, 0) == Some(k as int) && k < series@.len(),
            None => hit_from(series@, component@, date@, 0) is None,
        },
{
    let n = series.len();
    let mut i: usize = 0;
    while i < n
        invariant
            n == series@.len(),
            i <= n,
            hit_from(series@, component@, date@, 0) == hit_from(series@, component@, date@, i as nat),
        decreases n - i,
    {
        if str_eq(series[i].component.as_str(), component.as_str()) && str_eq(
            series[i].date.as_str(),
            date.as_str(),
        ) {
            return Some(i);
        }
        i = i + 1;
    }
    None
}

fn points_for(page: &DeliveryPage, component: &String) -> (out: Vec<ActivityPoint>)
    ensures
        point_views(out@) == week_starts_of(page.from@, page.to@).map_values(
            |d: Seq<char>| point_of(page.series@, component@, d),
        ),
{
    let buckets = week_starts(page.from.as_str(), page.to.as_str());
    let ghost want = week_starts_of(page.from@, page.to@).map_values(
        |d: Seq<char>| point_of(page.series@, component@, d),
    );
    let n = buckets.len();
    let mut out: Vec<ActivityPoint> = Vec::new();
    for k in 0..n
        invariant
            n == buckets@.len(),
            string_views(buckets@) == week_starts_of(page.from@, page.to@),
            want == week_starts_of(page.from@, page.to@).map_values(
                |d: Seq<char>| point_of(page.series@, component@, d),
            ),
            out@.len() == k,
            point_views(out@) == want.take(k as int),
    {
        let date = &buckets[k];
        proof {
            assert(string_views(buckets@)[k as int] == date@);
        }
        let p = match find_point(&page.series, component, date) {
            Some(h) => ActivityPoint {
                date: date.clone(),
                commits: page.series[h].commits,
                lines_added: page.series[h].lines_added,
                lines_removed: page.series[h].lines_removed,
            },
            None => ActivityPoint { date: date.clone(), commits: 0, lines_added: 0, lines_removed: 0 },
        };
        proof {
            assert(p@ == want[k as int]);
            assert(point_views(out@.push(p)) =~= want.take(k + 1));
        }
        out.push(p);
    }
    proof {
        assert(want.take(n as int) =~= want);
    }
    out
}

/// The pull-request row a gear carries: the last one naming it, unless an
/// earlier row already carries the same name.
fn pr_for(pr_pages: &[PullRequestPage], gear: &String) -> (out: Option<PullRequestTotals>)
    ensures
        opt_pr_view(out) == last_pr(pr_rows(pr_pages@), gear@),
{
    let np = pr_pages.len();
    let mut i: usize = np;
    proof {
        assert(pr_pages@.take(np as int) =~= pr_pages@);
    }
    while i > 0
        invariant
            np == pr_pages@.len(),
            i <= np,
            last_pr(pr_rows(pr_pages@), gear@) == last_pr(pr_rows(pr_pages@.take(i as int)), gear@),
        decreases i,
    {
        let page = &pr_pages[i - 1];
        proof {
            lemma_pr_rows_step(pr_pages@, i - 1);
            assert(pr_pages@.take(i as int) =~= pr_pages@.take(i - 1 + 1));
        }
        let ghost before = pr_rows(pr_pages@.take(i - 1));
        let ghost rows = page.totals@.map_values(|t: PullRequestTotals| t@);
        let nt = page.totals.len();
        let mut j: usize = nt;
        proof {
            assert(rows.take(nt as int) =~= rows);
            assert(pr_rows(pr_pages@.take(i as int)) == before + rows);
        }
        while j > 0
            invariant
                nt == page.totals@.len(),
                rows == page.totals@.map_values(|t: PullRequestTotals| t@),
                last_pr(pr_rows(pr_pages@), gear@) == last_pr(before + rows, gear@),
                j <= nt,
                last_pr(before + rows, gear@) == last_pr(before + rows.take(j as int), gear@),
            decreases j,
        {
            let t = &page.totals[j - 1];
            let ghost cur = before + rows.take(j as int);
            proof {
                assert(cur.drop_last() =~= before + rows.take(j - 1));
                assert(cur.last() == t@);
            }
            if str_eq(t.component.as_str(), gear.as_str()) {
                let c = t.copy();
                proof {
                    assert(cur.len() > 0);
                    assert(last_pr(cur, gear@) == Some(t@));
                }
                return Some(c);
            }
            j = j - 1;
        }
        proof {
            assert(before + rows.take(0) =~= before);
        }
        i = i - 1;
    }
    None
}

/// Join every repository's answers into one row per gear.
///
/// A gear with pull requests but no commits in the window is dropped; a gear
/// with commits and no pull requests keeps `None` rather than three zeros. The
/// answer is a prefix when any page, of either kind, was capped; the window is
/// the first page's, when it names both ends.
pub fn index_of(pages: &[DeliveryPage], pr_pages: &[PullRequestPage]) -> (out: (
    Vec<GearActivity>,
    bool,
    Option<(String, String)>,
))
    ensures
        gear_views(out.0@) == attach_prs(delivery_rows(pages@), pr_rows(pr_pages@)),
        out.1 == any_truncated(pages@, pr_pages@),
        pair_view(out.2) == window_of(pages@),
{
    let ghost prs = pr_rows(pr_pages@);
    let window = if pages.len() > 0 && pages[0].from.as_str().unicode_len() > 0 && pages[0].to.as_str().unicode_len() > 0 {
        Some((pages[0].from.clone(), pages[0].to.clone()))
    } else {
        None
    };
    let mut out: Vec<GearActivity> = Vec::new();
    let mut truncated = false;
    let np = pages.len();
    for i in 0..np
        invariant
            np == pages@.len(),
            prs == pr_rows(pr_pages@),
            gear_views(out@) == attach_prs(delivery_rows(pages@.take(i as int)), prs),
            truncated == (exists|k: int| 0 <= k < i && #[trigger] pages@[k].truncated),
    {
        let page = &pages[i];
        let ghost before = delivery_rows(pages@.take(i as int));
        let ghost rows = page.totals@.map_values(|t: DeliveryTotals| gear_row(*page, t));
        proof {
            lemma_delivery_rows_step(pages@, i as int);
        }
        truncated = truncated || page.truncated;
        let nt = page.totals.len();
        proof {
            assert(gear_views(out@).len() == out@.len());
            assert(rows.take(0) =~= seq![]);
            assert(before + rows.take(0) =~= before);
        }
        for j in 0..nt
            invariant
                nt == page.totals@.len(),
                prs == pr_rows(pr_pages@),
                before == delivery_rows(pages@.take(i as int)),
                rows == page.totals@.map_values(|t: DeliveryTotals| gear_row(*page, t)),
                gear_views(out@) == attach_prs(before + rows.take(j as int), prs),
                out@.len() == before.len() + j,
                rows.len() == nt,
        {
            let t = &page.totals[j];
            let ghost cur = before + rows.take(j as int);
            let ghost next = before + rows.take(j + 1);
            let ghost x = gear_row(*page, *t);
            proof {
                assert(next =~= cur.push(x));
            }
            let points = points_for(page, &t.component);
            let mut first = true;
            let m = out.len();
            proof {
                assert(gear_views(out@).len() == out@.len());
                assert(cur.len() == m);
            }
            let mut g: usize = 0;
            while g < m
                invariant
                    m == out@.len(),
                    m == cur.len(),
                    x.gear == t.component@,
                    g <= m,
                    gear_views(out@) == attach_prs(cur, prs),
                    first == (forall|q: int| 0 <= q < g ==> #[trigger] cur[q].gear != x.gear),
                decreases m - g,
            {
                proof {
                    assert(gear_views(out@)[g as int] == out@[g as int]@);
                    assert(attach_prs(cur, prs)[g as int].gear == cur[g as int].gear);
                }
                if str_eq(out[g].gear.as_str(), t.component.as_str()) {
                    first = false;
                }
                g = g + 1;
            }
            let pr = if first { pr_for(pr_pages, &t.component) } else { None };
            let row = GearActivity {
                gear: t.component.clone(),
                commits: t.commits,
                files_changed: t.files_changed,
                lines_added: t.lines_added,
                lines_removed: t.lines_removed,
                authors: t.authors,
                pull_requests: pr,
                points,
            };
            proof {
                let ghost want = attach_prs(next, prs);
                assert(next[cur.len() as int] == x);
                assert forall|q: int| 0 <= q < cur.len() implies #[trigger] next[q] == cur[q] by {}
                if first {
                    assert forall|q: int| 0 <= q < cur.len() implies #[trigger] next[q].gear != next[cur.len() as int].gear by {
                        assert(next[q] == cur[q]);
                        assert(cur[q].gear != x.gear);
                    }
                } else {
                    let q = choose|q: int| 0 <= q < cur.len() && cur[q].gear == x.gear;
                    assert(next[q].gear == next[cur.len() as int].gear);
                }
                assert(first_named(next, cur.len() as int) == first);
                assert(row@ == want[cur.len() as int]);
                assert forall|q: int| 0 <= q < cur.len() implies #[trigger] want[q] == attach_prs(cur, prs)[q] by {
                    assert(next[q] == cur[q]);
                    lemma_first_named_same_prefix(next, cur, q);
                }
                assert(gear_views(out@.push(row)) =~= want);
            }
            out.push(row);
        }
        proof {
            assert(rows.take(nt as int) =~= rows);
        }
    }
    proof {
        assert(pages@.take(np as int) =~= pages@);
    }
    let npr = pr_pages.len();
    for i in 0..npr
        invariant
            npr == pr_pages@.len(),
            truncated == ((exists|k: int| 0 <= k < pages@.len() && #[trigger] pages@[k].truncated)
                || (exists|k: int| 0 <= k < i && #[trigger] pr_pages@[k].truncated)),
    {
        truncated = truncated || pr_pages[i].truncated;
    }
    (out, truncated, window)
}

} // verus!
