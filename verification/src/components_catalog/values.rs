//! What a component's fields say: the flat keys an older editor wrote, how a
//! repository url is shown, and which of two versions is newer.

use vstd::prelude::*;
use vstd::string::StringSliceAdditionalSpecFns;
use vstd::utf8::encode_utf8;

use crate::json::{json_array, json_get, json_str, json_view, json_views, json_written, member_views, str_at, write_json, Json, JsonV};
use crate::numbers::{decimal, decimal_of, parse_unsigned, parse_unsigned_in};
use crate::text::{
    chars_of, join_str, join_strings, lemma_seq_lt_irreflexive, lemma_seq_lt_total, lemma_seq_lt_transitive, lex_lt, opt_view, push_all, push_str, seq_lt, slice_of, str_eq, string_of,
    strip_prefix, strip_prefix_exec, trim_end_char,
    trim_end_char_exec,
};

verus! {

/// Flat profile keys the old editor wrote, and the schema field each means.
/// These fill only where nothing is set yet.
pub const LEGACY_KEYS: [(&'static str, &'static str); 16] = [
    ("category", "category"),
    ("domain", "category"),
    ("lifecycle_status", "lifecycle"),
    ("maintainers", "maintainer"),
    ("repository", "path"),
    ("code_coverage", "coverage"),
    ("code_loc", "codeloc"),
    ("spec_loc", "specloc"),
    ("unit_test_loc", "unitloc"),
    ("e2e_test_loc", "e2eloc"),
    ("supported_databases", "dbs"),
    ("plugins", "plugins"),
    ("dependencies", "deps"),
    ("events_published", "events"),
    ("feature_flags", "flags"),
    ("api_spec_link", "openapi"),
];

/// `https://github.com/owner/name/` → `github.com/owner/name`.
pub open spec fn short_repo_of(url: Seq<char>) -> Seq<char> {
    let u = trim_end_char(url, '/');
    let u = match strip_prefix(u, "https://"@) {
        Some(r) => r,
        None => match strip_prefix(u, "http://"@) {
            Some(r) => r,
            None => u,
        },
    };
    match strip_prefix(u, "www."@) {
        Some(r) => r,
        None => u,
    }
}

pub fn short_repo(url: &str) -> (out: String)
    ensures
        out@ == short_repo_of(url@),
{
    let u = trim_end_char_exec(&chars_of(url), '/');
    let u = match strip_prefix_exec(&u, "https://") {
        Some(r) => r,
        None => match strip_prefix_exec(&u, "http://") {
            Some(r) => r,
            None => u,
        },
    };
    match strip_prefix_exec(&u, "www.") {
        Some(r) => string_of(&r),
        None => string_of(&u),
    }
}

/// A byte a URL path carries as it is: an ASCII letter or digit, `-`, `_`,
/// `.` or `~`.
pub open spec fn unreserved(b: u8) -> bool {
    (48 <= b <= 57) || (65 <= b <= 90) || (97 <= b <= 122) || b == 45 || b == 95 || b == 46 || b == 126
}

pub open spec fn hex_digit(d: u8) -> char {
    if d < 10 {
        ((d + 48) as u32) as char
    } else {
        ((d + 55) as u32) as char
    }
}

/// One byte as a URL path carries it.
pub open spec fn encoded_byte(b: u8) -> Seq<char> {
    if unreserved(b) {
        seq![(b as u32) as char]
    } else {
        seq!['%', hex_digit(b / 16), hex_digit(b % 16)]
    }
}

/// Percent-encoding of UTF-8 text: every byte of a character that is not
/// unreserved becomes `%XX`, upper-case hex.
pub open spec fn urlencoded(bs: Seq<u8>) -> Seq<char>
    decreases bs.len(),
{
    if bs.len() == 0 {
        seq![]
    } else {
        urlencoded(bs.drop_last()) + encoded_byte(bs.last())
    }
}

fn hex_char(d: u8) -> (c: char)
    requires
        d < 16,
    ensures
        c == hex_digit(d),
{
    if d < 10 {
        (d + 48) as char
    } else {
        (d + 55) as char
    }
}

/// Percent-encode the parts of a crate name a URL path cannot carry.
pub fn urlencoding_component(value: &str) -> (out: String)
    ensures
        out@ == urlencoded(value.spec_bytes()),
{
    let bs = value.as_bytes();
    let n = bs.len();
    let mut out: Vec<char> = Vec::new();
    for i in 0..n
        invariant
            n == bs@.len(),
            bs@ == value.spec_bytes(),
            out@ == urlencoded(bs@.take(i as int)),
    {
        let b = bs[i];
        proof {
            assert(bs@.take(i + 1).drop_last() == bs@.take(i as int));
        }
        if (48 <= b && b <= 57) || (65 <= b && b <= 90) || (97 <= b && b <= 122) || b == 45 || b == 95
            || b == 46 || b == 126 {
            out.push(b as char);
        } else {
            out.push('%');
            out.push(hex_char(b / 16));
            out.push(hex_char(b % 16));
        }
        proof {
            assert(out@ =~= urlencoded(bs@.take(i + 1)));
        }
    }
    proof {
        assert(bs@.take(n as int) == bs@);
    }
    string_of(&out)
}

/// A byte that separates the parts of a version: `.`, `-` or `+`.
pub open spec fn version_sep(b: u8) -> bool {
    b == 46 || b == 45 || b == 43
}

/// The text split at every separator, empty pieces kept.
pub open spec fn version_pieces(bs: Seq<u8>) -> Seq<Seq<u8>>
    decreases bs.len(),
{
    if bs.len() == 0 {
        seq![seq![]]
    } else {
        let p = version_pieces(bs.drop_last());
        if version_sep(bs.last()) {
            p.push(seq![])
        } else {
            p.update(p.len() - 1, p.last().push(bs.last()))
        }
    }
}

/// A piece as a number: its value when it parses as a `u64`, zero otherwise.
pub open spec fn piece_value(p: Seq<u8>) -> nat {
    match parse_unsigned(p, 18446744073709551615) {
        Some(v) => v,
        None => 0,
    }
}

/// The numbers a version is compared by.
pub open spec fn version_numbers(bs: Seq<u8>) -> Seq<nat> {
    version_pieces(bs).map_values(|p: Seq<u8>| piece_value(p))
}

/// The `i`th number, zero past the end.
pub open spec fn number_at(ns: Seq<nat>, i: int) -> nat {
    if 0 <= i < ns.len() {
        ns[i]
    } else {
        0
    }
}

/// Where two versions first differ, comparing numbers and padding the shorter
/// with zeros; `None` when they never do.
pub open spec fn first_difference(x: Seq<nat>, y: Seq<nat>, i: nat) -> Option<int>
    decreases (if x.len() > y.len() { x.len() } else { y.len() }) - i,
{
    if i >= x.len() && i >= y.len() {
        None
    } else if number_at(x, i as int) != number_at(y, i as int) {
        Some(i as int)
    } else {
        first_difference(x, y, i + 1)
    }
}

/// Newest first: negative when `a` is the newer (sorts first), positive when
/// `b` is, zero when no number differs.
pub open spec fn version_order(a: Seq<u8>, b: Seq<u8>) -> int {
    let x = version_numbers(a);
    let y = version_numbers(b);
    match first_difference(x, y, 0) {
        Some(i) => if number_at(x, i) > number_at(y, i) { -1 } else { 1 },
        None => 0,
    }
}

proof fn lemma_pieces_nonempty(bs: Seq<u8>)
    ensures
        version_pieces(bs).len() >= 1,
    decreases bs.len(),
{
    if bs.len() > 0 {
        lemma_pieces_nonempty(bs.drop_last());
    }
}

/// The numbers of a version, in order.
fn version_numbers_exec(s: &str) -> (out: Vec<u64>)
    ensures
        nat_views(out@) == version_numbers(s.spec_bytes()),
{
    let bs = s.as_bytes();
    let n = bs.len();
    let mut out: Vec<u64> = Vec::new();
    let mut start: usize = 0;
    let ghost mut done: Seq<Seq<u8>> = seq![];
    proof {
        assert(bs@.take(0) =~= Seq::<u8>::empty());
        assert(bs@.subrange(0, 0) =~= Seq::<u8>::empty());
        assert(done.push(bs@.subrange(0, 0)) =~= seq![Seq::<u8>::empty()]);
    }
    for i in 0..n
        invariant
            n == bs@.len(),
            start <= i,
            done.push(bs@.subrange(start as int, i as int)) == version_pieces(bs@.take(i as int)),
            out@.map_values(|v: u64| v as nat) == done.map_values(|p: Seq<u8>| piece_value(p)),
    {
        proof {
            assert(bs@.take(i + 1).drop_last() == bs@.take(i as int));
            assert(bs@.take(i + 1).last() == bs@[i as int]);
            lemma_pieces_nonempty(bs@.take(i as int));
        }
        if bs[i] == 46 || bs[i] == 45 || bs[i] == 43 {
            let v = match parse_unsigned_in(bs, start, i, 18446744073709551615u64) {
                Some(v) => v,
                None => 0,
            };
            let ghost piece = bs@.subrange(start as int, i as int);
            proof {
                assert(v as nat == piece_value(piece));
            }
            let ghost before = out@;
            out.push(v);
            proof {
                assert(out@.map_values(|v: u64| v as nat) =~= before.map_values(|v: u64| v as nat).push(v as nat));
                assert(done.push(piece).map_values(|p: Seq<u8>| piece_value(p)) =~= done.map_values(|p: Seq<u8>| piece_value(p)).push(piece_value(piece)));
                done = done.push(piece);
                assert(bs@.subrange(i + 1, i + 1) =~= Seq::<u8>::empty());
            }
            start = i + 1;
        } else {
            proof {
                assert(bs@.subrange(start as int, i + 1) =~= bs@.subrange(start as int, i as int).push(bs@[i as int]));
                assert(done.push(bs@.subrange(start as int, i + 1)) =~= done.push(bs@.subrange(start as int, i as int)).update(done.len() as int, bs@.subrange(start as int, i as int).push(bs@[i as int])));
            }
        }
    }
    let v = match parse_unsigned_in(bs, start, n, 18446744073709551615u64) {
        Some(v) => v,
        None => 0,
    };
    let ghost piece = bs@.subrange(start as int, n as int);
    let ghost before = out@;
    out.push(v);
    proof {
        assert(bs@.take(n as int) == bs@);
        assert(out@.map_values(|v: u64| v as nat) =~= before.map_values(|v: u64| v as nat).push(v as nat));
        assert(done.push(piece).map_values(|p: Seq<u8>| piece_value(p)) =~= done.map_values(|p: Seq<u8>| piece_value(p)).push(piece_value(piece)));
        assert(s.spec_bytes() == bs@);
    }
    out
}

pub open spec fn nat_views(v: Seq<u64>) -> Seq<nat> {
    v.map_values(|n: u64| n as nat)
}

/// Newest first on two lists of numbers: -1 when `x` is newer, 1 when `y`
/// is, 0 when they never differ.
fn compare_numbers(x: &Vec<u64>, y: &Vec<u64>) -> (r: i8)
    ensures
        r == (match first_difference(nat_views(x@), nat_views(y@), 0) {
            Some(i) => if number_at(nat_views(x@), i) > number_at(nat_views(y@), i) { -1int } else { 1int },
            None => 0int,
        }),
{
    let ghost xs = nat_views(x@);
    let ghost ys = nat_views(y@);
    let nx = x.len();
    let ny = y.len();
    let m = if nx > ny { nx } else { ny };
    let mut i: usize = 0;
    while i < m
        invariant
            nx == x@.len(),
            ny == y@.len(),
            xs == nat_views(x@),
            ys == nat_views(y@),
            m == (if nx > ny { nx } else { ny }),
            i <= m,
            first_difference(xs, ys, 0) == first_difference(xs, ys, i as nat),
        decreases m - i,
    {
        let a: u64 = if i < nx { x[i] } else { 0 };
        let b: u64 = if i < ny { y[i] } else { 0 };
        proof {
            assert(number_at(xs, i as int) == a);
            assert(number_at(ys, i as int) == b);
        }
        if a != b {
            return if a > b { -1 } else { 1 };
        }
        i = i + 1;
    }
    0
}

proof fn lemma_first_difference(x: Seq<nat>, y: Seq<nat>, k: nat)
    ensures
        match first_difference(x, y, k) {
            Some(i) => k <= i && number_at(x, i) != number_at(y, i) && forall|t: int|
                k <= t < i ==> #[trigger] number_at(x, t) == number_at(y, t),
            None => forall|t: int| k <= t ==> #[trigger] number_at(x, t) == number_at(y, t),
        },
    decreases (if x.len() > y.len() { x.len() } else { y.len() }) - k,
{
    if k >= x.len() && k >= y.len() {
    } else if number_at(x, k as int) != number_at(y, k as int) {
    } else {
        lemma_first_difference(x, y, k + 1);
    }
}

proof fn lemma_first_difference_is(x: Seq<nat>, y: Seq<nat>, k: nat, i: int)
    requires
        k <= i,
        number_at(x, i) != number_at(y, i),
        forall|t: int| k <= t < i ==> #[trigger] number_at(x, t) == number_at(y, t),
    ensures
        first_difference(x, y, k) == Some(i),
    decreases i - k,
{
    if k < i {
        assert(number_at(x, k as int) == number_at(y, k as int));
        if k >= x.len() && k >= y.len() {
            assert(number_at(x, i) == 0 && number_at(y, i) == 0);
        }
        lemma_first_difference_is(x, y, k + 1, i);
    }
}

proof fn lemma_first_difference_none(x: Seq<nat>, y: Seq<nat>, k: nat)
    requires
        forall|t: int| k <= t ==> #[trigger] number_at(x, t) == number_at(y, t),
    ensures
        first_difference(x, y, k) is None,
    decreases (if x.len() > y.len() { x.len() } else { y.len() }) - k,
{
    if k >= x.len() && k >= y.len() {
    } else {
        assert(number_at(x, k as int) == number_at(y, k as int));
        lemma_first_difference_none(x, y, k + 1);
    }
}

/// A version compared with itself is neither newer nor older.
pub proof fn law_newer_first_reflexive(a: Seq<u8>)
    ensures
        version_order(a, a) == 0,
{
    let x = version_numbers(a);
    lemma_first_difference_none(x, x, 0);
}

/// Swapping the two versions swaps the answer.
pub proof fn law_newer_first_antisymmetric(a: Seq<u8>, b: Seq<u8>)
    ensures
        version_order(a, b) == -version_order(b, a),
{
    let x = version_numbers(a);
    let y = version_numbers(b);
    lemma_first_difference(x, y, 0);
    match first_difference(x, y, 0) {
        Some(i) => {
            lemma_first_difference_is(y, x, 0, i);
        },
        None => {
            lemma_first_difference_none(y, x, 0);
        },
    }
}

/// If `a` sorts no later than `b` and `b` no later than `c`, then `a` sorts
/// no later than `c`: sorting by it is well defined.
pub proof fn law_newer_first_transitive(a: Seq<u8>, b: Seq<u8>, c: Seq<u8>)
    requires
        version_order(a, b) <= 0,
        version_order(b, c) <= 0,
    ensures
        version_order(a, c) <= 0,
{
    let x = version_numbers(a);
    let y = version_numbers(b);
    let z = version_numbers(c);
    lemma_first_difference(x, y, 0);
    lemma_first_difference(y, z, 0);
    match (first_difference(x, y, 0), first_difference(y, z, 0)) {
        (None, None) => {
            assert forall|t: int| 0 <= t implies #[trigger] number_at(x, t) == number_at(z, t) by {
                assert(number_at(x, t) == number_at(y, t));
                assert(number_at(y, t) == number_at(z, t));
            }
            lemma_first_difference_none(x, z, 0);
        },
        (Some(i), None) => {
            assert forall|t: int| 0 <= t < i implies #[trigger] number_at(x, t) == number_at(z, t) by {
                assert(number_at(x, t) == number_at(y, t));
                assert(number_at(y, t) == number_at(z, t));
            }
            assert(number_at(y, i) == number_at(z, i));
            lemma_first_difference_is(x, z, 0, i);
        },
        (None, Some(j)) => {
            assert forall|t: int| 0 <= t < j implies #[trigger] number_at(x, t) == number_at(z, t) by {
                assert(number_at(x, t) == number_at(y, t));
                assert(number_at(y, t) == number_at(z, t));
            }
            assert(number_at(x, j) == number_at(y, j));
            lemma_first_difference_is(x, z, 0, j);
        },
        (Some(i), Some(j)) => {
            let k = if i < j { i } else { j };
            assert forall|t: int| 0 <= t < k implies #[trigger] number_at(x, t) == number_at(z, t) by {
                assert(number_at(x, t) == number_at(y, t));
                assert(number_at(y, t) == number_at(z, t));
            }
            if i < j {
                assert(number_at(y, i) == number_at(z, i));
            } else if j < i {
                assert(number_at(x, j) == number_at(y, j));
            }
            lemma_first_difference_is(x, z, 0, k);
        },
    }
}

/// Order two crate versions, newest first.
///
/// Not semver: the text splits on `.`, `-` and `+` and the pieces compare as
/// numbers, a piece that is not one counting as zero, the shorter padded
/// with zeros. `1.2.0-rc1` and `1.2.0` then compare on the parts that mean
/// something, and a version nobody can parse sorts last.
pub fn newer_first(a: &str, b: &str) -> (out: core::cmp::Ordering)
    ensures
        (out == core::cmp::Ordering::Less) == (version_order(a.spec_bytes(), b.spec_bytes()) < 0),
        (out == core::cmp::Ordering::Equal) == (version_order(a.spec_bytes(), b.spec_bytes()) == 0),
        (out == core::cmp::Ordering::Greater) == (version_order(a.spec_bytes(), b.spec_bytes()) > 0),
{
    let pa = version_numbers_exec(a);
    let pb = version_numbers_exec(b);
    let r = compare_numbers(&pa, &pb);
    if r < 0 {
        core::cmp::Ordering::Less
    } else if r == 0 {
        core::cmp::Ordering::Equal
    } else {
        core::cmp::Ordering::Greater
    }
}

// ── the fields a component's sources answer ──────────────────────────────────

/// A map from field ids to answers, in ascending key order, each key once.
pub type VMap = Seq<(Seq<char>, JsonV)>;

/// Where `key` goes in a map kept in ascending key order.
pub open spec fn vput_at(m: VMap, key: Seq<char>) -> int
    decreases m.len(),
{
    if m.len() == 0 {
        0
    } else if !seq_lt(m[0].0, key) {
        0
    } else {
        1 + vput_at(m.drop_first(), key)
    }
}

/// `key` set to `v`, replacing what it held.
pub open spec fn vmap_put(m: VMap, key: Seq<char>, v: JsonV) -> VMap {
    let i = vput_at(m, key);
    if i < m.len() && m[i].0 == key {
        m.update(i, (key, v))
    } else {
        m.insert(i, (key, v))
    }
}

/// Whether the map holds `key`.
pub open spec fn vmap_has(m: VMap, key: Seq<char>) -> bool {
    exists|i: int| 0 <= i < m.len() && (#[trigger] m[i]).0 == key
}

/// An answer made of these parts, null parts left out.
pub open spec fn field_map(pairs: Seq<(Seq<char>, JsonV)>) -> VMap
    decreases pairs.len(),
{
    if pairs.len() == 0 {
        seq![]
    } else {
        let m = field_map(pairs.drop_last());
        if pairs.last().1 is Null {
            m
        } else {
            vmap_put(m, pairs.last().0, pairs.last().1)
        }
    }
}

pub open spec fn field_of(pairs: Seq<(Seq<char>, JsonV)>) -> JsonV {
    JsonV::Object(field_map(pairs))
}

pub(crate) fn map_put(m: &mut Vec<(String, Json)>, key: String, v: Json)
    ensures
        member_views(final(m)@) == vmap_put(member_views(old(m)@), key@, json_view(v)),
{
    let ghost mv = member_views(m@);
    let kv = chars_of(key.as_str());
    let n = m.len();
    let mut j: usize = 0;
    proof {
        assert(mv.skip(0) == mv);
        lemma_member_views_len(m@);
    }
    while j < n && lex_lt(&chars_of(m[j].0.as_str()), &kv)
        invariant
            n == m@.len(),
            j <= n,
            mv == member_views(m@),
            mv.len() == n,
            kv@ == key@,
            vput_at(mv, key@) == j + vput_at(mv.skip(j as int), key@),
        decreases n - j,
    {
        proof {
            lemma_member_views_at(m@, j as int);
            assert(mv.skip(j as int)[0] == mv[j as int]);
            assert(mv.skip(j as int).drop_first() == mv.skip(j + 1));
        }
        j += 1;
    }
    proof {
        if j < n {
            lemma_member_views_at(m@, j as int);
            assert(mv.skip(j as int)[0] == mv[j as int]);
        }
        assert(vput_at(mv, key@) == j);
    }
    let ghost kvw = (key@, json_view(v));
    if j < n && str_eq(m[j].0.as_str(), key.as_str()) {
        let ghost old_m = m@;
        m.set(j, (key, v));
        proof {
            lemma_member_views_at(old_m, j as int);
            lemma_member_views_update(old_m, j as int, m@[j as int]);
            assert(m@ == old_m.update(j as int, m@[j as int]));
        }
    } else {
        let ghost old_m = m@;
        m.insert(j, (key, v));
        proof {
            lemma_member_views_insert(old_m, j as int, m@[j as int]);
            assert(m@ == old_m.insert(j as int, m@[j as int]));
        }
    }
}

/// An answer made of these parts, null parts left out.
pub(crate) fn field(pairs: &Vec<(&'static str, Json)>) -> (out: Json)
    ensures
        json_view(out) == field_of(pairs@.map_values(|p: (&'static str, Json)| (p.0@, json_view(p.1)))),
{
    let ghost pv = pairs@.map_values(|p: (&'static str, Json)| (p.0@, json_view(p.1)));
    let mut m: Vec<(String, Json)> = Vec::new();
    let n = pairs.len();
    proof {
        assert(member_views(m@) == field_map(pv.take(0)));
    }
    for i in 0..n
        invariant
            n == pairs@.len(),
            pv == pairs@.map_values(|p: (&'static str, Json)| (p.0@, json_view(p.1))),
            member_views(m@) == field_map(pv.take(i as int)),
    {
        proof {
            assert(pv.take(i + 1).drop_last() == pv.take(i as int));
            assert(pv.take(i + 1).last() == pv[i as int]);
        }
        let is_null = match &pairs[i].1 {
            Json::Null => true,
            _ => false,
        };
        if !is_null {
            map_put(&mut m, pairs[i].0.to_owned(), pairs[i].1.copy());
        }
    }
    proof {
        assert(pv.take(n as int) == pv);
    }
    Json::Object(m)
}

pub(crate) proof fn lemma_member_views_len(m: Seq<(String, Json)>)
    ensures
        member_views(m).len() == m.len(),
    decreases m.len(),
{
    if m.len() > 0 {
        lemma_member_views_len(m.drop_last());
    }
}

pub(crate) proof fn lemma_member_views_at(m: Seq<(String, Json)>, i: int)
    requires
        0 <= i < m.len(),
    ensures
        member_views(m).len() == m.len(),
        member_views(m)[i] == (m[i].0@, json_view(m[i].1)),
    decreases m.len(),
{
    lemma_member_views_len(m);
    if i < m.len() - 1 {
        lemma_member_views_at(m.drop_last(), i);
    }
}

pub(crate) proof fn lemma_member_views_ext(m: Seq<(String, Json)>, v: VMap)
    requires
        v.len() == m.len(),
        forall|i: int| 0 <= i < m.len() ==> v[i] == (#[trigger] m[i].0@, json_view(m[i].1)),
    ensures
        member_views(m) == v,
    decreases m.len(),
{
    if m.len() > 0 {
        lemma_member_views_ext(m.drop_last(), v.drop_last());
        assert(member_views(m) =~= v);
    } else {
        assert(member_views(m) =~= v);
    }
}

proof fn lemma_member_views_update(m: Seq<(String, Json)>, j: int, x: (String, Json))
    requires
        0 <= j < m.len(),
    ensures
        member_views(m.update(j, x)) == member_views(m).update(j, (x.0@, json_view(x.1))),
{
    let u = m.update(j, x);
    let v = member_views(m).update(j, (x.0@, json_view(x.1)));
    lemma_member_views_len(m);
    assert forall|i: int| 0 <= i < u.len() implies v[i] == (#[trigger] u[i].0@, json_view(u[i].1)) by {
        if i != j {
            lemma_member_views_at(m, i);
        }
    }
    lemma_member_views_ext(u, v);
}

proof fn lemma_member_views_insert(m: Seq<(String, Json)>, j: int, x: (String, Json))
    requires
        0 <= j <= m.len(),
    ensures
        member_views(m.insert(j, x)) == member_views(m).insert(j, (x.0@, json_view(x.1))),
{
    let u = m.insert(j, x);
    let v = member_views(m).insert(j, (x.0@, json_view(x.1)));
    lemma_member_views_len(m);
    assert forall|i: int| 0 <= i < u.len() implies v[i] == (#[trigger] u[i].0@, json_view(u[i].1)) by {
        if i < j {
            lemma_member_views_at(m, i);
        } else if i > j {
            lemma_member_views_at(m, i - 1);
        }
    }
    lemma_member_views_ext(u, v);
}

/// A non-empty string field of a node.
pub open spec fn text_of(node: Json, key: Seq<char>) -> Option<Seq<char>> {
    match str_at(node, key) {
        Some(s) => if s.len() > 0 {
            Some(s)
        } else {
            None
        },
        None => None,
    }
}

/// The non-empty strings of a list, in order.
pub open spec fn nonempty_strs(items: Seq<Json>) -> Seq<Seq<char>>
    decreases items.len(),
{
    if items.len() == 0 {
        seq![]
    } else {
        let rest = nonempty_strs(items.drop_last());
        match json_str(items.last()) {
            Some(s) => if s.len() > 0 {
                rest.push(s)
            } else {
                rest
            },
            None => rest,
        }
    }
}

pub open spec fn list_of(node: Json, key: Seq<char>) -> Seq<Seq<char>> {
    match json_get(node, key) {
        Some(a) => match json_array(a) {
            Some(items) => nonempty_strs(items),
            None => seq![],
        },
        None => seq![],
    }
}

pub open spec fn or_text(a: Option<Seq<char>>, b: Option<Seq<char>>) -> Option<Seq<char>> {
    match a {
        Some(x) => Some(x),
        None => b,
    }
}

pub open spec fn sv(s: Seq<char>) -> JsonV {
    JsonV::Str(s)
}

/// Two parts, `v` and `b`, both `s`.
pub open spec fn shown_field(s: Seq<char>) -> JsonV {
    field_of(seq![("v"@, sv(s)), ("b"@, sv(s))])
}

/// The published categories, else the keywords: all of them joined, and
/// the first.
pub open spec fn category_parts(node: Json) -> (Seq<char>, Seq<char>) {
    let cats = list_of(node, "categories"@);
    let kws = list_of(node, "keywords"@);
    if cats.len() > 0 {
        (join_str(cats, ", "@), cats[0])
    } else if kws.len() > 0 {
        (join_str(kws, ", "@), kws[0])
    } else {
        (seq![], seq![])
    }
}

/// Everything the crates.io payload can answer: description, repository,
/// the version (stable, else newest, else whatever exists) with its link,
/// the last change's day, the categories (else keywords), and the licence.
pub open spec fn from_crate_of(node: Json) -> VMap {
    let name = match text_of(node, "name"@) {
        Some(n) => n,
        None => seq![],
    };
    let link = if name.len() > 0 {
        sv("https://crates.io/crates/"@ + urlencoded(encode_utf8(name)))
    } else {
        JsonV::Null
    };
    let m1 = match text_of(node, "description"@) {
        Some(d) => vmap_put(seq![], "description"@, shown_field(d)),
        None => seq![],
    };
    let m2 = match text_of(node, "repository"@) {
        Some(r) => vmap_put(m1, "path"@, field_of(seq![("v"@, sv(r)), ("b"@, sv(short_repo_of(r))), ("l"@, sv(r))])),
        None => m1,
    };
    let latest = or_text(text_of(node, "max_stable_version"@), or_text(text_of(node, "newest_version"@), text_of(node, "max_version"@)));
    let m3 = match latest {
        Some(l) => {
            let version = field_of(seq![("v"@, sv(l)), ("b"@, sv(l)), ("l"@, link)]);
            let published = field_of(
                seq![
                    ("v"@, sv("On crates.io — "@ + name + " "@ + l)),
                    ("b"@, sv("crates.io"@)),
                    ("s"@, sv("good"@)),
                    ("l"@, link),
                ],
            );
            vmap_put(vmap_put(vmap_put(m2, "version"@, version), "lastrelease"@, version), "published"@, published)
        },
        None => m2,
    };
    let m4 = match text_of(node, "updated_at"@) {
        Some(u) => {
            let day = if u.len() > 10 { u.take(10) } else { u };
            vmap_put(m3, "lastchange"@, field_of(seq![("v"@, sv(day)), ("b"@, sv(day)), ("u"@, sv(day))]))
        },
        None => m3,
    };
    let (all, first) = category_parts(node);
    let m5 = if all.len() > 0 {
        vmap_put(m4, "category"@, field_of(seq![("v"@, sv(all)), ("b"@, sv(first))]))
    } else {
        m4
    };
    match text_of(node, "license"@) {
        Some(l) => vmap_put(m5, "licence"@, shown_field(l)),
        None => m5,
    }
}

fn text_exec<'a>(node: &'a Json, key: &str) -> (r: Option<&'a str>)
    ensures
        match r {
            Some(s) => text_of(*node, key@) == Some(s@),
            None => text_of(*node, key@) is None,
        },
{
    match node.str_at(key) {
        Some(s) => if s.is_empty() {
            None
        } else {
            Some(s)
        },
        None => None,
    }
}

fn list_exec(node: &Json, key: &str) -> (out: Vec<String>)
    ensures
        out@.map_values(|s: String| s@) == list_of(*node, key@),
{
    let mut out: Vec<String> = Vec::new();
    match node.get(key) {
        Some(a) => match a.as_array() {
            Some(items) => {
                let n = items.len();
                for i in 0..n
                    invariant
                        n == items@.len(),
                        out@.map_values(|s: String| s@) == nonempty_strs(items@.take(i as int)),
                {
                    proof {
                        assert(items@.take(i + 1).drop_last() == items@.take(i as int));
                        assert(items@.take(i + 1).last() == items@[i as int]);
                    }
                    match items[i].as_str() {
                        Some(s) => {
                            if !s.is_empty() {
                                let ghost before = out@.map_values(|s: String| s@);
                                out.push(s.to_owned());
                                proof {
                                    assert(out@.map_values(|s: String| s@) =~= before.push(s@));
                                }
                            }
                        },
                        None => {},
                    }
                }
                proof {
                    assert(items@.take(n as int) == items@);
                }
            },
            None => {},
        },
        None => {},
    }
    out
}

pub(crate) fn shown(s: &str) -> (out: Json)
    ensures
        json_view(out) == shown_field(s@),
{
    let pairs: Vec<(&'static str, Json)> = vec![("v", Json::Str(s.to_owned())), ("b", Json::Str(s.to_owned()))];
    proof {
        assert(pairs@.map_values(|p: (&'static str, Json)| (p.0@, json_view(p.1))) =~= seq![("v"@, sv(s@)), ("b"@, sv(s@))]);
    }
    field(&pairs)
}

fn concat(parts: &Vec<&str>) -> (out: String)
    ensures
        out@ == concat_strs(parts@),
{
    let mut t: Vec<char> = Vec::new();
    let n = parts.len();
    for i in 0..n
        invariant
            n == parts@.len(),
            t@ == concat_strs(parts@.take(i as int)),
    {
        proof {
            assert(parts@.take(i + 1).drop_last() == parts@.take(i as int));
            assert(parts@.take(i + 1).last() == parts@[i as int]);
        }
        push_str(&mut t, parts[i]);
    }
    proof {
        assert(parts@.take(n as int) == parts@);
    }
    string_of(&t)
}

pub open spec fn concat_strs(parts: Seq<&str>) -> Seq<char>
    decreases parts.len(),
{
    if parts.len() == 0 {
        seq![]
    } else {
        concat_strs(parts.drop_last()) + parts.last()@
    }
}

/// Everything the crates.io payload can answer, by schema field id.
pub fn from_crate(node: &Json) -> (out: Vec<(String, Json)>)
    ensures
        member_views(out@) == from_crate_of(*node),
{
    let mut out: Vec<(String, Json)> = Vec::new();
    let name: &str = match text_exec(node, "name") {
        Some(n) => n,
        None => "",
    };
    let has_name = !name.is_empty();
    let link_text: String = if has_name {
        let enc = urlencoding_component(name);
        let parts: Vec<&str> = vec!["https://crates.io/crates/", enc.as_str()];
        proof {
            assert(concat_strs(parts@) == "https://crates.io/crates/"@ + enc@) by {
                assert(parts@.drop_last().drop_last() =~= Seq::<&str>::empty());
                assert(concat_strs(parts@.drop_last()) == concat_strs(Seq::<&str>::empty()) + "https://crates.io/crates/"@);
            }
        }
        concat(&parts)
    } else {
        String::new()
    };
    let ghost linkv: JsonV = if name@.len() > 0 {
        sv("https://crates.io/crates/"@ + urlencoded(encode_utf8(name@)))
    } else {
        JsonV::Null
    };
    proof {
        reveal_strlit("");
        if text_of(*node, "name"@) is None {
            assert(name@ == Seq::<char>::empty());
        }
    }
    let ghost m0 = member_views(out@);
    proof {
        assert(m0 == Seq::<(Seq<char>, JsonV)>::empty());
    }
    match text_exec(node, "description") {
        Some(d) => {
            map_put(&mut out, "description".to_owned(), shown(d));
        },
        None => {},
    }
    match text_exec(node, "repository") {
        Some(r) => {
            let pairs: Vec<(&'static str, Json)> = vec![
                ("v", Json::Str(r.to_owned())),
                ("b", Json::Str(short_repo(r))),
                ("l", Json::Str(r.to_owned())),
            ];
            proof {
                assert(pairs@.map_values(|p: (&'static str, Json)| (p.0@, json_view(p.1))) =~= seq![
                    ("v"@, sv(r@)),
                    ("b"@, sv(short_repo_of(r@))),
                    ("l"@, sv(r@)),
                ]);
            }
            map_put(&mut out, "path".to_owned(), field(&pairs));
        },
        None => {},
    }
    let latest = match text_exec(node, "max_stable_version") {
        Some(l) => Some(l),
        None => match text_exec(node, "newest_version") {
            Some(l) => Some(l),
            None => text_exec(node, "max_version"),
        },
    };
    match latest {
        Some(l) => {
            let link = |t: &String| -> (j: Json)
                ensures
                    json_view(j) == if t@.len() > 0 { sv(t@) } else { JsonV::Null },
                { if t.as_str().is_empty() { Json::Null } else { Json::Str(t.clone()) } };
            proof {
                if has_name {
                    assert(link_text@.len() > 0);
                } else {
                    assert(link_text@.len() == 0);
                }
            }
            let pairs: Vec<(&'static str, Json)> = vec![
                ("v", Json::Str(l.to_owned())),
                ("b", Json::Str(l.to_owned())),
                ("l", link(&link_text)),
            ];
            proof {
                assert(pairs@.map_values(|p: (&'static str, Json)| (p.0@, json_view(p.1))) =~= seq![
                    ("v"@, sv(l@)),
                    ("b"@, sv(l@)),
                    ("l"@, linkv),
                ]);
            }
            let version = field(&pairs);
            map_put(&mut out, "version".to_owned(), version.copy());
            map_put(&mut out, "lastrelease".to_owned(), version);
            let words: Vec<&str> = vec!["On crates.io — ", name, " ", l];
            proof {
                let w = words@;
                let w3 = w.drop_last();
                let w2 = w3.drop_last();
                let w1 = w2.drop_last();
                assert(w.len() == 4 && w[0] == "On crates.io — " && w[1] == name && w[2] == " " && w[3] == l);
                assert(w1.drop_last() =~= Seq::<&str>::empty());
                assert(concat_strs(w1.drop_last()) =~= Seq::<char>::empty());
                assert(w1.last() == w[0]);
                assert(concat_strs(w1) =~= "On crates.io — "@);
                assert(concat_strs(w2) == "On crates.io — "@ + name@);
                assert(concat_strs(w3) == "On crates.io — "@ + name@ + " "@);
                assert(concat_strs(w) == "On crates.io — "@ + name@ + " "@ + l@);
            }
            let said = concat(&words);
            let pairs2: Vec<(&'static str, Json)> = vec![
                ("v", Json::Str(said)),
                ("b", Json::Str("crates.io".to_owned())),
                ("s", Json::Str("good".to_owned())),
                ("l", link(&link_text)),
            ];
            proof {
                assert(pairs2@.map_values(|p: (&'static str, Json)| (p.0@, json_view(p.1))) =~= seq![
                    ("v"@, sv("On crates.io — "@ + name@ + " "@ + l@)),
                    ("b"@, sv("crates.io"@)),
                    ("s"@, sv("good"@)),
                    ("l"@, linkv),
                ]);
            }
            map_put(&mut out, "published".to_owned(), field(&pairs2));
        },
        None => {},
    }
    match text_exec(node, "updated_at") {
        Some(u) => {
            let uv = chars_of(u);
            let day_v = if uv.len() > 10 {
                slice_of(&uv, 0, 10)
            } else {
                slice_of(&uv, 0, uv.len())
            };
            proof {
                if uv@.len() > 10 {
                    assert(uv@.subrange(0, 10) == uv@.take(10));
                }
                assert(uv@.subrange(0, uv@.len() as int) == uv@);
            }
            let day = string_of(&day_v);
            let pairs: Vec<(&'static str, Json)> = vec![
                ("v", Json::Str(day.clone())),
                ("b", Json::Str(day.clone())),
                ("u", Json::Str(day)),
            ];
            proof {
                let d = if u@.len() > 10 { u@.take(10) } else { u@ };
                assert(pairs@.map_values(|p: (&'static str, Json)| (p.0@, json_view(p.1))) =~= seq![
                    ("v"@, sv(d)),
                    ("b"@, sv(d)),
                    ("u"@, sv(d)),
                ]);
            }
            map_put(&mut out, "lastchange".to_owned(), field(&pairs));
        },
        None => {},
    }
    let cats = list_exec(node, "categories");
    let kws = list_exec(node, "keywords");
    let (all, first): (String, String) = if cats.len() > 0 {
        (join_strings(&cats, ", "), cats[0].clone())
    } else if kws.len() > 0 {
        (join_strings(&kws, ", "), kws[0].clone())
    } else {
        (String::new(), String::new())
    };
    proof {
        if cats@.len() > 0 {
            assert(cats@.map_values(|s: String| s@)[0] == cats@[0]@);
        } else if kws@.len() > 0 {
            assert(kws@.map_values(|s: String| s@)[0] == kws@[0]@);
        }
    }
    if !all.as_str().is_empty() {
        let pairs: Vec<(&'static str, Json)> = vec![("v", Json::Str(all)), ("b", Json::Str(first))];
        proof {
            let cp = category_parts(*node);
            assert(pairs@.map_values(|p: (&'static str, Json)| (p.0@, json_view(p.1))) =~= seq![
                ("v"@, sv(cp.0)),
                ("b"@, sv(cp.1)),
            ]);
        }
        map_put(&mut out, "category".to_owned(), field(&pairs));
    }
    match text_exec(node, "license") {
        Some(l) => {
            map_put(&mut out, "licence".to_owned(), shown(l));
        },
        None => {},
    }
    out
}

// ── reading a stored value ───────────────────────────────────────────────────

/// The keys of the rich answer shape.
pub open spec fn answer_key(k: Seq<char>) -> bool {
    k == "v"@ || k == "b"@ || k == "n"@ || k == "s"@ || k == "l"@ || k == "u"@
}

/// Whether an object already carries any key of the rich shape.
pub open spec fn is_rich(m: Seq<(Seq<char>, JsonV)>) -> bool {
    exists|i: int| 0 <= i < m.len() && answer_key((#[trigger] m[i]).0)
}

/// A list item as it is shown: a string as it is, anything else as the
/// compact JSON `serde_json` writes for it.
pub open spec fn item_text(j: JsonV) -> Seq<char> {
    match j {
        JsonV::Str(s) => s,
        _ => json_written(j),
    }
}

/// What a bare stored value answers: `None` for null, an empty string or a
/// list that joins to nothing; the rich shape passed through; anything else
/// turned into one, a number keeping itself under `n` to sort on and a list
/// its length.
pub open spec fn to_field_of(raw: JsonV) -> Option<JsonV> {
    match raw {
        JsonV::Null => None,
        JsonV::Str(s) => if s.len() == 0 {
            None
        } else {
            Some(field_of(seq![("v"@, sv(s)), ("b"@, sv(s))]))
        },
        JsonV::Number(t) => Some(field_of(seq![("v"@, sv(t)), ("b"@, sv(t)), ("n"@, JsonV::Number(t))])),
        JsonV::Bool(b) => {
            let shown = if b { "true"@ } else { "false"@ };
            Some(field_of(seq![("v"@, sv(shown)), ("b"@, sv(shown))]))
        },
        JsonV::Array(items) => {
            let joined = join_str(items.map_values(|j: JsonV| item_text(j)), ", "@);
            if joined.len() == 0 {
                None
            } else {
                Some(field_of(seq![("v"@, sv(joined)), ("b"@, sv(joined)), ("n"@, JsonV::Number(decimal(items.len())))]))
            }
        },
        JsonV::Object(m) => if is_rich(m) {
            Some(raw)
        } else {
            let shown = json_written(raw);
            Some(field_of(seq![("v"@, sv(shown)), ("b"@, sv(shown))]))
        },
    }
}

pub open spec fn opt_json_view(o: Option<Json>) -> Option<JsonV> {
    match o {
        Some(j) => Some(json_view(j)),
        None => None,
    }
}

fn is_answer_key(k: &str) -> (r: bool)
    ensures
        r == answer_key(k@),
{
    str_eq(k, "v") || str_eq(k, "b") || str_eq(k, "n") || str_eq(k, "s") || str_eq(k, "l") || str_eq(k, "u")
}

/// Turn a bare stored value into a field answer, if it can be one.
pub fn to_field_val(raw: &Json) -> (out: Option<Json>)
    ensures
        opt_json_view(out) == to_field_of(json_view(*raw)),
{
    match raw {
        Json::Null => None,
        Json::Str(s) => {
            if s.as_str().is_empty() {
                None
            } else {
                Some(shown(s.as_str()))
            }
        },
        Json::Number(t) => {
            let pairs: Vec<(&'static str, Json)> = vec![
                ("v", Json::Str(t.clone())),
                ("b", Json::Str(t.clone())),
                ("n", Json::Number(t.clone())),
            ];
            proof {
                assert(pairs@.map_values(|p: (&'static str, Json)| (p.0@, json_view(p.1))) =~= seq![
                    ("v"@, sv(t@)),
                    ("b"@, sv(t@)),
                    ("n"@, JsonV::Number(t@)),
                ]);
            }
            Some(field(&pairs))
        },
        Json::Bool(b) => {
            let t: &str = if *b { "true" } else { "false" };
            Some(shown(t))
        },
        Json::Array(items) => {
            let n = items.len();
            let mut texts: Vec<String> = Vec::new();
            let ghost iv = json_views(items@);
            proof {
                lemma_json_views_len(items@);
            }
            for i in 0..n
                invariant
                    n == items@.len(),
                    iv == json_views(items@),
                    iv.len() == n,
                    texts@.map_values(|s: String| s@) == iv.take(i as int).map_values(|j: JsonV| item_text(j)),
            {
                proof {
                    lemma_json_views_at(items@, i as int);
                    assert(iv.take(i + 1) == iv.take(i as int).push(iv[i as int]));
                }
                let t: String = match &items[i] {
                    Json::Str(s) => s.clone(),
                    other => write_json(other),
                };
                let ghost before = texts@.map_values(|s: String| s@);
                texts.push(t);
                proof {
                    assert(texts@.map_values(|s: String| s@) =~= before.push(item_text(iv[i as int])));
                    assert(iv.take(i + 1).map_values(|j: JsonV| item_text(j)) =~= iv.take(i as int).map_values(
                        |j: JsonV| item_text(j),
                    ).push(item_text(iv[i as int])));
                }
            }
            proof {
                assert(iv.take(n as int) == iv);
            }
            let joined = join_strings(&texts, ", ");
            if joined.as_str().is_empty() {
                None
            } else {
                let count = decimal_of(n as u64);
                let pairs: Vec<(&'static str, Json)> = vec![
                    ("v", Json::Str(joined.clone())),
                    ("b", Json::Str(joined)),
                    ("n", Json::Number(string_of(&count))),
                ];
                proof {
                    assert(pairs@.map_values(|p: (&'static str, Json)| (p.0@, json_view(p.1))) =~= seq![
                        ("v"@, sv(join_str(iv.map_values(|j: JsonV| item_text(j)), ", "@))),
                        ("b"@, sv(join_str(iv.map_values(|j: JsonV| item_text(j)), ", "@))),
                        ("n"@, JsonV::Number(decimal(iv.len()))),
                    ]);
                }
                Some(field(&pairs))
            }
        },
        Json::Object(m) => {
            let n = m.len();
            let mut rich = false;
            let ghost mv = member_views(m@);
            proof {
                lemma_member_views_len(m@);
            }
            for i in 0..n
                invariant
                    n == m@.len(),
                    mv == member_views(m@),
                    mv.len() == n,
                    rich == exists|t: int| 0 <= t < i && answer_key((#[trigger] mv[t]).0),
            {
                proof {
                    lemma_member_views_at(m@, i as int);
                }
                if is_answer_key(m[i].0.as_str()) {
                    rich = true;
                }
            }
            if rich {
                Some(raw.copy())
            } else {
                let t = write_json(raw);
                Some(shown(t.as_str()))
            }
        },
    }
}

pub(crate) proof fn lemma_json_views_len(s: Seq<Json>)
    ensures
        json_views(s).len() == s.len(),
    decreases s.len(),
{
    if s.len() > 0 {
        lemma_json_views_len(s.drop_last());
    }
}

pub(crate) proof fn lemma_json_views_at(s: Seq<Json>, i: int)
    requires
        0 <= i < s.len(),
    ensures
        json_views(s).len() == s.len(),
        json_views(s)[i] == json_view(s[i]),
    decreases s.len(),
{
    lemma_json_views_len(s);
    if i < s.len() - 1 {
        lemma_json_views_at(s.drop_last(), i);
    }
}

// ── precedence: crates.io < scan < profile < legacy keys where unanswered ───

/// What a person's stored value answers: its answer, or null when it says
/// nothing (clearing a field is a decision too).
pub open spec fn answer_or_null(raw: JsonV) -> JsonV {
    match to_field_of(raw) {
        Some(v) => v,
        None => JsonV::Null,
    }
}

/// The scan's members laid over `m` in order, those that say nothing skipped.
pub open spec fn put_scanned(m: VMap, ms: Seq<(Seq<char>, JsonV)>) -> VMap
    decreases ms.len(),
{
    if ms.len() == 0 {
        m
    } else {
        let m0 = put_scanned(m, ms.drop_last());
        match to_field_of(ms.last().1) {
            Some(v) => vmap_put(m0, ms.last().0, v),
            None => m0,
        }
    }
}

/// A person's members laid over `m` in order, every one of them.
pub open spec fn put_set(m: VMap, ms: Seq<(Seq<char>, JsonV)>) -> VMap
    decreases ms.len(),
{
    if ms.len() == 0 {
        m
    } else {
        vmap_put(put_set(m, ms.drop_last()), ms.last().0, answer_or_null(ms.last().1))
    }
}

/// The legacy keys as (flat key, field id).
pub open spec fn legacy_view() -> Seq<(Seq<char>, Seq<char>)> {
    LEGACY_KEYS@.map_values(|p: (&'static str, &'static str)| (p.0@, p.1@))
}

/// The legacy flat keys of `profile`, each filling its field only where the
/// field is still unanswered.
pub open spec fn put_legacy(m: VMap, profile: Json, keys: Seq<(Seq<char>, Seq<char>)>) -> VMap
    decreases keys.len(),
{
    if keys.len() == 0 {
        m
    } else {
        let m0 = put_legacy(m, profile, keys.drop_last());
        let flat = keys.last().0;
        let key = keys.last().1;
        if vmap_has(m0, key) {
            m0
        } else {
            match json_get(profile, flat) {
                Some(raw) => match to_field_of(json_view(raw)) {
                    Some(v) => vmap_put(m0, key, v),
                    None => m0,
                },
                None => m0,
            }
        }
    }
}

/// The members of an object, none for anything else.
pub open spec fn object_members(o: Option<Json>) -> Seq<(Seq<char>, JsonV)> {
    match o {
        Some(Json::Object(m)) => member_views(m@),
        _ => seq![],
    }
}

pub open spec fn opt_deref(o: Option<&Json>) -> Option<Json> {
    match o {
        Some(p) => Some(*p),
        None => None,
    }
}

/// The three sources merged, later winning, then the legacy keys filling
/// what is still unanswered.
pub open spec fn resolve_of(node: Json, profile: Option<Json>) -> VMap {
    let base = from_crate_of(node);
    match profile {
        None => base,
        Some(p) => {
            let scanned = put_scanned(base, object_members(json_get(p, "auto"@)));
            let set = put_set(scanned, object_members(json_get(p, "values"@)));
            put_legacy(set, p, legacy_view())
        },
    }
}

pub(crate) fn has_key(m: &Vec<(String, Json)>, key: &str) -> (r: bool)
    ensures
        r == vmap_has(member_views(m@), key@),
{
    let ghost mv = member_views(m@);
    proof {
        lemma_member_views_len(m@);
    }
    let n = m.len();
    for i in 0..n
        invariant
            n == m@.len(),
            mv == member_views(m@),
            mv.len() == n,
            forall|t: int| 0 <= t < i ==> (#[trigger] mv[t]).0 != key@,
    {
        proof {
            lemma_member_views_at(m@, i as int);
        }
        if str_eq(m[i].0.as_str(), key) {
            return true;
        }
    }
    false
}

/// Merge the three sources in precedence order: crates.io < scan < profile;
/// then the legacy flat keys, only where a field is still unanswered.
pub fn resolve(node: &Json, profile: Option<&Json>) -> (out: Vec<(String, Json)>)
    ensures
        member_views(out@) == resolve_of(*node, opt_deref(profile)),
{
    let mut out = from_crate(node);
    let p = match profile {
        Some(p) => p,
        None => {
            return out;
        },
    };
    let ghost base = from_crate_of(*node);
    match p.get("auto") {
        Some(Json::Object(a)) => {
            let n = a.len();
            let ghost av = member_views(a@);
            proof {
                lemma_member_views_len(a@);
            }
            for i in 0..n
                invariant
                    n == a@.len(),
                    av == member_views(a@),
                    av.len() == n,
                    member_views(out@) == put_scanned(base, av.take(i as int)),
            {
                proof {
                    lemma_member_views_at(a@, i as int);
                    assert(av.take(i + 1).drop_last() == av.take(i as int));
                    assert(av.take(i + 1).last() == av[i as int]);
                }
                match to_field_val(&a[i].1) {
                    Some(v) => {
                        map_put(&mut out, a[i].0.clone(), v);
                    },
                    None => {},
                }
            }
            proof {
                assert(av.take(n as int) == av);
            }
        },
        _ => {},
    }
    let ghost scanned = member_views(out@);
    proof {
        assert(scanned == put_scanned(base, object_members(json_get(*p, "auto"@))));
    }
    match p.get("values") {
        Some(Json::Object(a)) => {
            let n = a.len();
            let ghost av = member_views(a@);
            proof {
                lemma_member_views_len(a@);
            }
            for i in 0..n
                invariant
                    n == a@.len(),
                    av == member_views(a@),
                    av.len() == n,
                    member_views(out@) == put_set(scanned, av.take(i as int)),
            {
                proof {
                    lemma_member_views_at(a@, i as int);
                    assert(av.take(i + 1).drop_last() == av.take(i as int));
                    assert(av.take(i + 1).last() == av[i as int]);
                }
                match to_field_val(&a[i].1) {
                    Some(v) => {
                        map_put(&mut out, a[i].0.clone(), v);
                    },
                    None => {
                        map_put(&mut out, a[i].0.clone(), Json::Null);
                    },
                }
            }
            proof {
                assert(av.take(n as int) == av);
            }
        },
        _ => {},
    }
    let ghost set = member_views(out@);
    proof {
        assert(set == put_set(scanned, object_members(json_get(*p, "values"@))));
    }
    let ghost lv = legacy_view();
    proof {
        assert(lv.len() == 16);
    }
    for i in 0..16usize
        invariant
            lv == legacy_view(),
            lv.len() == 16,
            member_views(out@) == put_legacy(set, *p, lv.take(i as int)),
    {
        let (flat, key) = LEGACY_KEYS[i];
        proof {
            assert(lv.take(i + 1).drop_last() == lv.take(i as int));
            assert(lv.take(i + 1).last() == lv[i as int]);
            assert(lv[i as int] == (flat@, key@));
        }
        if !has_key(&out, key) {
            match p.get(flat) {
                Some(raw) => match to_field_val(raw) {
                    Some(v) => {
                        map_put(&mut out, key.to_owned(), v);
                    },
                    None => {},
                },
                None => {},
            }
        }
    }
    proof {
        assert(lv.take(16) == lv);
    }
    out
}

// ── the category ─────────────────────────────────────────────────────────────

/// A category a source holds: a non-empty string, or the badge (else the
/// value) of a rich answer when that is a non-empty string.
pub open spec fn pick_of(parent: Option<Json>) -> Option<Seq<char>> {
    match parent {
        None => None,
        Some(p) => match json_get(p, "category"@) {
            Some(Json::Str(s)) => if s@.len() > 0 {
                Some(s@)
            } else {
                None
            },
            Some(o) => if o is Object {
                let c = match json_get(o, "b"@) {
                    Some(x) => Some(x),
                    None => json_get(o, "v"@),
                };
                match c {
                    Some(x) => match json_str(x) {
                        Some(s) => if s.len() > 0 {
                            Some(s)
                        } else {
                            None
                        },
                        None => None,
                    },
                    None => None,
                }
            } else {
                None
            },
            None => None,
        },
    }
}

pub open spec fn sub_of(profile: Option<Json>, key: Seq<char>) -> Option<Json> {
    match profile {
        Some(p) => json_get(p, key),
        None => None,
    }
}

/// In order: what the scan read, what a person set, what the node says, the
/// first published category; empty when nothing answers.
pub open spec fn category_spec(node: Json, profile: Option<Json>) -> Seq<char> {
    let cats = list_of(node, "categories"@);
    let first = if cats.len() > 0 {
        Some(cats[0])
    } else {
        None
    };
    match or_text(
        pick_of(sub_of(profile, "auto"@)),
        or_text(pick_of(sub_of(profile, "values"@)), or_text(text_of(node, "category"@), first)),
    ) {
        Some(c) => c,
        None => seq![],
    }
}

fn pick(parent: Option<&Json>) -> (out: Option<String>)
    ensures
        opt_view(out) == pick_of(opt_deref(parent)),
{
    let p = match parent {
        Some(p) => p,
        None => {
            return None;
        },
    };
    match p.get("category") {
        Some(Json::Str(s)) => if s.as_str().is_empty() {
            None
        } else {
            Some(s.clone())
        },
        Some(o) => {
            if !o.is_object() {
                return None;
            }
            let c = match o.get("b") {
                Some(x) => Some(x),
                None => o.get("v"),
            };
            match c {
                Some(x) => match x.as_str() {
                    Some(s) => if s.is_empty() {
                        None
                    } else {
                        Some(s.to_owned())
                    },
                    None => None,
                },
                None => None,
            }
        },
        None => None,
    }
}

/// What to file a component under, out of the four places a category hides.
pub fn category_of(node: &Json, profile: Option<&Json>) -> (out: String)
    ensures
        out@ == category_spec(*node, opt_deref(profile)),
{
    let auto = match profile {
        Some(p) => p.get("auto"),
        None => None,
    };
    match pick(auto) {
        Some(c) => {
            return c;
        },
        None => {},
    }
    let values = match profile {
        Some(p) => p.get("values"),
        None => None,
    };
    match pick(values) {
        Some(c) => {
            return c;
        },
        None => {},
    }
    match text_exec(node, "category") {
        Some(c) => {
            return c.to_owned();
        },
        None => {},
    }
    let cats = list_exec(node, "categories");
    if cats.len() > 0 {
        proof {
            assert(cats@.map_values(|s: String| s@)[0] == cats@[0]@);
        }
        cats[0].clone()
    } else {
        proof {
            reveal_strlit("");
        }
        String::new()
    }
}

// ── what the merged answers hold ─────────────────────────────────────────────

/// Keys strictly ascending, so each key at most once.
pub open spec fn vsorted(m: VMap) -> bool {
    forall|i: int, j: int| 0 <= i < j < m.len() ==> seq_lt(#[trigger] m[i].0, #[trigger] m[j].0)
}

/// The answer a map holds for `key`: that of the first entry with it.
pub open spec fn vmap_get(m: VMap, key: Seq<char>) -> Option<JsonV>
    decreases m.len(),
{
    if m.len() == 0 {
        None
    } else if m[0].0 == key {
        Some(m[0].1)
    } else {
        vmap_get(m.drop_first(), key)
    }
}

pub(crate) proof fn lemma_get_at(m: VMap, k: int)
    requires
        vsorted(m),
        0 <= k < m.len(),
    ensures
        vmap_get(m, m[k].0) == Some(m[k].1),
    decreases k,
{
    if k > 0 {
        assert(seq_lt(m[0].0, m[k].0));
        lemma_seq_lt_irreflexive(m[k].0);
        let d = m.drop_first();
        assert(d[k - 1] == m[k]);
        assert(vsorted(d)) by {
            assert forall|a: int, b: int| 0 <= a < b < d.len() implies seq_lt(#[trigger] d[a].0, #[trigger] d[b].0) by {
                assert(d[a] == m[a + 1] && d[b] == m[b + 1]);
            }
        }
        lemma_get_at(d, k - 1);
    }
}

pub(crate) proof fn lemma_get_none(m: VMap, key: Seq<char>)
    requires
        forall|t: int| 0 <= t < m.len() ==> (#[trigger] m[t]).0 != key,
    ensures
        vmap_get(m, key) is None,
    decreases m.len(),
{
    if m.len() > 0 {
        let d = m.drop_first();
        assert forall|t: int| 0 <= t < d.len() implies (#[trigger] d[t]).0 != key by {
            assert(d[t] == m[t + 1]);
        }
        lemma_get_none(d, key);
    }
}

pub(crate) proof fn lemma_get_some(m: VMap, key: Seq<char>)
    requires
        vmap_get(m, key) is Some,
    ensures
        exists|t: int| 0 <= t < m.len() && (#[trigger] m[t]).0 == key,
{
    if forall|t: int| 0 <= t < m.len() ==> (#[trigger] m[t]).0 != key {
        lemma_get_none(m, key);
    }
}

pub(crate) proof fn lemma_vput_at(m: VMap, key: Seq<char>)
    ensures
        0 <= vput_at(m, key) <= m.len(),
        forall|t: int| 0 <= t < vput_at(m, key) ==> seq_lt(#[trigger] m[t].0, key),
        vput_at(m, key) < m.len() ==> !seq_lt(m[vput_at(m, key)].0, key),
    decreases m.len(),
{
    if m.len() > 0 && seq_lt(m[0].0, key) {
        lemma_vput_at(m.drop_first(), key);
        assert forall|t: int| 0 <= t < vput_at(m, key) implies seq_lt(#[trigger] m[t].0, key) by {
            if t > 0 {
                assert(m[t] == m.drop_first()[t - 1]);
            }
        }
        if vput_at(m, key) < m.len() {
            assert(m[vput_at(m, key)] == m.drop_first()[vput_at(m, key) - 1]);
        }
    }
}

/// Setting a key in an ascending map keeps it ascending, answers the new
/// value for that key and leaves every other key as it was.
pub proof fn lemma_vmap_put(m: VMap, key: Seq<char>, v: JsonV)
    requires
        vsorted(m),
    ensures
        vsorted(vmap_put(m, key, v)),
        vmap_get(vmap_put(m, key, v), key) == Some(v),
        forall|k: Seq<char>| k != key ==> #[trigger] vmap_get(vmap_put(m, key, v), k) == vmap_get(m, k),
{
    let i = vput_at(m, key);
    let r = vmap_put(m, key, v);
    lemma_vput_at(m, key);
    if i < m.len() && m[i].0 == key {
        assert(r == m.update(i, (key, v)));
        assert(vsorted(r)) by {
            assert forall|a: int, b: int| 0 <= a < b < r.len() implies seq_lt(#[trigger] r[a].0, #[trigger] r[b].0) by {
                assert(seq_lt(m[a].0, m[b].0));
            }
        }
        lemma_get_at(r, i);
        assert forall|k: Seq<char>| k != key implies #[trigger] vmap_get(r, k) == vmap_get(m, k) by {
            if vmap_has(m, k) {
                let t = choose|t: int| 0 <= t < m.len() && (#[trigger] m[t]).0 == k;
                lemma_get_at(m, t);
                assert(r[t] == m[t]);
                lemma_get_at(r, t);
            } else {
                assert forall|t: int| 0 <= t < r.len() implies (#[trigger] r[t]).0 != k by {
                    if t != i {
                        assert(r[t] == m[t]);
                    }
                }
                lemma_get_none(m, k);
                lemma_get_none(r, k);
            }
        }
    } else {
        assert(r == m.insert(i, (key, v)));
        if i < m.len() {
            lemma_seq_lt_total(m[i].0, key);
        }
        assert(vsorted(r)) by {
            assert forall|a: int, b: int| 0 <= a < b < r.len() implies seq_lt(#[trigger] r[a].0, #[trigger] r[b].0) by {
                if b < i {
                    assert(r[a] == m[a] && r[b] == m[b]);
                } else if b == i {
                    assert(r[a] == m[a]);
                } else if a == i {
                    assert(r[b] == m[b - 1]);
                    if b - 1 > i {
                        assert(seq_lt(m[i].0, m[b - 1].0));
                        lemma_seq_lt_transitive(key, m[i].0, m[b - 1].0);
                    }
                } else if a < i {
                    assert(r[a] == m[a] && r[b] == m[b - 1]);
                    if b - 1 >= i {
                        if i < m.len() {
                            if b - 1 > i {
                                assert(seq_lt(m[i].0, m[b - 1].0));
                                lemma_seq_lt_transitive(key, m[i].0, m[b - 1].0);
                            }
                            lemma_seq_lt_transitive(m[a].0, key, m[b - 1].0);
                        }
                    }
                } else {
                    assert(r[a] == m[a - 1] && r[b] == m[b - 1]);
                }
            }
        }
        lemma_get_at(r, i);
        assert forall|k: Seq<char>| k != key implies #[trigger] vmap_get(r, k) == vmap_get(m, k) by {
            if vmap_has(m, k) {
                let t = choose|t: int| 0 <= t < m.len() && (#[trigger] m[t]).0 == k;
                lemma_get_at(m, t);
                if t < i {
                    assert(r[t] == m[t]);
                    lemma_get_at(r, t);
                } else {
                    assert(r[t + 1] == m[t]);
                    lemma_get_at(r, t + 1);
                }
            } else {
                assert forall|t: int| 0 <= t < r.len() implies (#[trigger] r[t]).0 != k by {
                    if t < i {
                        assert(r[t] == m[t]);
                    } else if t > i {
                        assert(r[t] == m[t - 1]);
                    }
                }
                lemma_get_none(m, k);
                lemma_get_none(r, k);
            }
        }
    }
}

proof fn lemma_scanned(m: VMap, ms: Seq<(Seq<char>, JsonV)>, k: Seq<char>)
    requires
        vsorted(m),
    ensures
        vsorted(put_scanned(m, ms)),
        (forall|t: int| 0 <= t < ms.len() ==> (#[trigger] ms[t]).0 != k) ==> vmap_get(put_scanned(m, ms), k) == vmap_get(m, k),
    decreases ms.len(),
{
    if ms.len() > 0 {
        let d = ms.drop_last();
        lemma_scanned(m, d, k);
        if forall|t: int| 0 <= t < ms.len() ==> (#[trigger] ms[t]).0 != k {
            assert forall|t: int| 0 <= t < d.len() implies (#[trigger] d[t]).0 != k by {
                assert(d[t] == ms[t]);
            }
            assert(ms[ms.len() - 1].0 != k);
        }
        match to_field_of(ms.last().1) {
            Some(v) => lemma_vmap_put(put_scanned(m, d), ms.last().0, v),
            None => {},
        }
    }
}

proof fn lemma_scanned_last(m: VMap, ms: Seq<(Seq<char>, JsonV)>, j: int)
    requires
        vsorted(m),
        0 <= j < ms.len(),
        to_field_of(ms[j].1) is Some,
        forall|t: int| j < t < ms.len() ==> (#[trigger] ms[t]).0 != ms[j].0,
    ensures
        vmap_get(put_scanned(m, ms), ms[j].0) == to_field_of(ms[j].1),
    decreases ms.len(),
{
    let d = ms.drop_last();
    lemma_scanned(m, d, ms[j].0);
    if j == ms.len() - 1 {
        lemma_vmap_put(put_scanned(m, d), ms[j].0, to_field_of(ms[j].1)->0);
    } else {
        assert(d[j] == ms[j]);
        assert forall|t: int| j < t < d.len() implies (#[trigger] d[t]).0 != d[j].0 by {
            assert(d[t] == ms[t]);
        }
        lemma_scanned_last(m, d, j);
        assert(ms[ms.len() - 1].0 != ms[j].0);
        match to_field_of(ms.last().1) {
            Some(v) => lemma_vmap_put(put_scanned(m, d), ms.last().0, v),
            None => {},
        }
    }
}

proof fn lemma_set(m: VMap, ms: Seq<(Seq<char>, JsonV)>, k: Seq<char>)
    requires
        vsorted(m),
    ensures
        vsorted(put_set(m, ms)),
        (forall|t: int| 0 <= t < ms.len() ==> (#[trigger] ms[t]).0 != k) ==> vmap_get(put_set(m, ms), k) == vmap_get(m, k),
    decreases ms.len(),
{
    if ms.len() > 0 {
        let d = ms.drop_last();
        lemma_set(m, d, k);
        if forall|t: int| 0 <= t < ms.len() ==> (#[trigger] ms[t]).0 != k {
            assert forall|t: int| 0 <= t < d.len() implies (#[trigger] d[t]).0 != k by {
                assert(d[t] == ms[t]);
            }
            assert(ms[ms.len() - 1].0 != k);
        }
        lemma_vmap_put(put_set(m, d), ms.last().0, answer_or_null(ms.last().1));
    }
}

proof fn lemma_set_last(m: VMap, ms: Seq<(Seq<char>, JsonV)>, j: int)
    requires
        vsorted(m),
        0 <= j < ms.len(),
        forall|t: int| j < t < ms.len() ==> (#[trigger] ms[t]).0 != ms[j].0,
    ensures
        vmap_get(put_set(m, ms), ms[j].0) == Some(answer_or_null(ms[j].1)),
    decreases ms.len(),
{
    let d = ms.drop_last();
    lemma_set(m, d, ms[j].0);
    lemma_vmap_put(put_set(m, d), ms.last().0, answer_or_null(ms.last().1));
    if j < ms.len() - 1 {
        assert(d[j] == ms[j]);
        assert forall|t: int| j < t < d.len() implies (#[trigger] d[t]).0 != d[j].0 by {
            assert(d[t] == ms[t]);
        }
        lemma_set_last(m, d, j);
        assert(ms[ms.len() - 1].0 != ms[j].0);
    }
}

proof fn lemma_legacy(m: VMap, p: Json, keys: Seq<(Seq<char>, Seq<char>)>, k: Seq<char>)
    requires
        vsorted(m),
    ensures
        vsorted(put_legacy(m, p, keys)),
        vmap_get(m, k) is Some ==> vmap_get(put_legacy(m, p, keys), k) == vmap_get(m, k),
    decreases keys.len(),
{
    if keys.len() > 0 {
        let d = keys.drop_last();
        lemma_legacy(m, p, d, k);
        let m0 = put_legacy(m, p, d);
        let key = keys.last().1;
        if vmap_get(m, k) is Some {
            lemma_get_some(m0, k);
        }
        if !vmap_has(m0, key) {
            match json_get(p, keys.last().0) {
                Some(raw) => match to_field_of(json_view(raw)) {
                    Some(v) => lemma_vmap_put(m0, key, v),
                    None => {},
                },
                None => {},
            }
        }
    }
}

proof fn lemma_from_crate_sorted(node: Json)
    ensures
        vsorted(from_crate_of(node)),
{
    let name = match text_of(node, "name"@) {
        Some(n) => n,
        None => seq![],
    };
    let link = if name.len() > 0 {
        sv("https://crates.io/crates/"@ + urlencoded(encode_utf8(name)))
    } else {
        JsonV::Null
    };
    let e: VMap = seq![];
    let m1 = match text_of(node, "description"@) {
        Some(d) => {
            lemma_vmap_put(e, "description"@, shown_field(d));
            vmap_put(e, "description"@, shown_field(d))
        },
        None => e,
    };
    let m2 = match text_of(node, "repository"@) {
        Some(r) => {
            let f = field_of(seq![("v"@, sv(r)), ("b"@, sv(short_repo_of(r))), ("l"@, sv(r))]);
            lemma_vmap_put(m1, "path"@, f);
            vmap_put(m1, "path"@, f)
        },
        None => m1,
    };
    let latest = or_text(text_of(node, "max_stable_version"@), or_text(text_of(node, "newest_version"@), text_of(node, "max_version"@)));
    let m3 = match latest {
        Some(l) => {
            let version = field_of(seq![("v"@, sv(l)), ("b"@, sv(l)), ("l"@, link)]);
            let published = field_of(
                seq![
                    ("v"@, sv("On crates.io — "@ + name + " "@ + l)),
                    ("b"@, sv("crates.io"@)),
                    ("s"@, sv("good"@)),
                    ("l"@, link),
                ],
            );
            lemma_vmap_put(m2, "version"@, version);
            let a = vmap_put(m2, "version"@, version);
            lemma_vmap_put(a, "lastrelease"@, version);
            let b = vmap_put(a, "lastrelease"@, version);
            lemma_vmap_put(b, "published"@, published);
            vmap_put(b, "published"@, published)
        },
        None => m2,
    };
    let m4 = match text_of(node, "updated_at"@) {
        Some(u) => {
            let day = if u.len() > 10 { u.take(10) } else { u };
            let f = field_of(seq![("v"@, sv(day)), ("b"@, sv(day)), ("u"@, sv(day))]);
            lemma_vmap_put(m3, "lastchange"@, f);
            vmap_put(m3, "lastchange"@, f)
        },
        None => m3,
    };
    let (all, first) = category_parts(node);
    let m5 = if all.len() > 0 {
        let f = field_of(seq![("v"@, sv(all)), ("b"@, sv(first))]);
        lemma_vmap_put(m4, "category"@, f);
        vmap_put(m4, "category"@, f)
    } else {
        m4
    };
    match text_of(node, "license"@) {
        Some(l) => lemma_vmap_put(m5, "licence"@, shown_field(l)),
        None => {},
    }
}

/// The members of the scan (`auto`) of a profile.
pub open spec fn scan_members(profile: Json) -> Seq<(Seq<char>, JsonV)> {
    object_members(json_get(profile, "auto"@))
}

/// The members a person set (`values`) in a profile.
pub open spec fn set_members(profile: Json) -> Seq<(Seq<char>, JsonV)> {
    object_members(json_get(profile, "values"@))
}

/// A person's answer wins: what a person set for a field is the field's
/// answer, whatever the scan, the registry or a legacy key say, and a value
/// that says nothing clears the field rather than falling back.
pub proof fn law_a_persons_answer_wins(node: Json, profile: Json, j: int)
    requires
        0 <= j < set_members(profile).len(),
        forall|t: int|
            j < t < set_members(profile).len() ==> (#[trigger] set_members(profile)[t]).0 != set_members(profile)[j].0,
    ensures
        vmap_get(resolve_of(node, Some(profile)), set_members(profile)[j].0) == Some(
            answer_or_null(set_members(profile)[j].1),
        ),
{
    let key = set_members(profile)[j].0;
    let base = from_crate_of(node);
    lemma_from_crate_sorted(node);
    lemma_scanned(base, scan_members(profile), key);
    let scanned = put_scanned(base, scan_members(profile));
    lemma_set(scanned, set_members(profile), key);
    lemma_set_last(scanned, set_members(profile), j);
    lemma_legacy(put_set(scanned, set_members(profile)), profile, legacy_view(), key);
}

/// The scan beats the registry: where a person set nothing for a field, what
/// the scan answers for it is the field's answer.
pub proof fn law_the_scan_beats_the_registry(node: Json, profile: Json, j: int)
    requires
        0 <= j < scan_members(profile).len(),
        to_field_of(scan_members(profile)[j].1) is Some,
        forall|t: int|
            j < t < scan_members(profile).len() ==> (#[trigger] scan_members(profile)[t]).0 != scan_members(
                profile,
            )[j].0,
        forall|t: int|
            0 <= t < set_members(profile).len() ==> (#[trigger] set_members(profile)[t]).0 != scan_members(
                profile,
            )[j].0,
    ensures
        vmap_get(resolve_of(node, Some(profile)), scan_members(profile)[j].0) == to_field_of(
            scan_members(profile)[j].1,
        ),
{
    let key = scan_members(profile)[j].0;
    let base = from_crate_of(node);
    lemma_from_crate_sorted(node);
    lemma_scanned(base, scan_members(profile), key);
    lemma_scanned_last(base, scan_members(profile), j);
    let scanned = put_scanned(base, scan_members(profile));
    lemma_set(scanned, set_members(profile), key);
    lemma_legacy(put_set(scanned, set_members(profile)), profile, legacy_view(), key);
}

/// The registry answers what nobody else does: a field that neither the scan
/// nor a person mentions keeps what crates.io published for it.
pub proof fn law_the_registry_answers_the_rest(node: Json, profile: Json, key: Seq<char>)
    requires
        vmap_get(from_crate_of(node), key) is Some,
        forall|t: int| 0 <= t < scan_members(profile).len() ==> (#[trigger] scan_members(profile)[t]).0 != key,
        forall|t: int| 0 <= t < set_members(profile).len() ==> (#[trigger] set_members(profile)[t]).0 != key,
    ensures
        vmap_get(resolve_of(node, Some(profile)), key) == vmap_get(from_crate_of(node), key),
{
    let base = from_crate_of(node);
    lemma_from_crate_sorted(node);
    lemma_scanned(base, scan_members(profile), key);
    let scanned = put_scanned(base, scan_members(profile));
    lemma_set(scanned, set_members(profile), key);
    lemma_legacy(put_set(scanned, set_members(profile)), profile, legacy_view(), key);
}

pub(crate) proof fn lemma_json_views_ext(s: Seq<Json>, v: Seq<JsonV>)
    requires
        v.len() == s.len(),
        forall|i: int| 0 <= i < s.len() ==> v[i] == json_view(#[trigger] s[i]),
    ensures
        json_views(s) == v,
    decreases s.len(),
{
    if s.len() > 0 {
        lemma_json_views_ext(s.drop_last(), v.drop_last());
        assert(json_views(s) =~= v);
    } else {
        assert(json_views(s) =~= v);
    }
}

} // verus!
