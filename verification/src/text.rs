//! Characters and strings: the handful of `str` operations the rest of the
//! library needs, stated over `Seq<char>` and computed over `Vec<char>`.

use vstd::prelude::*;

verus! {

/// Unicode `White_Space`, which is what `char::is_whitespace` answers.
pub open spec fn is_ws(c: char) -> bool {
    ||| ('\t' <= c && c <= '\r')
    ||| c == ' '
    ||| c == '\u{85}'
    ||| c == '\u{a0}'
    ||| c == '\u{1680}'
    ||| ('\u{2000}' <= c && c <= '\u{200a}')
    ||| c == '\u{2028}'
    ||| c == '\u{2029}'
    ||| c == '\u{202f}'
    ||| c == '\u{205f}'
    ||| c == '\u{3000}'
}

pub open spec fn is_upper(c: char) -> bool {
    'A' <= c && c <= 'Z'
}

pub open spec fn is_lower(c: char) -> bool {
    'a' <= c && c <= 'z'
}

pub open spec fn is_digit(c: char) -> bool {
    '0' <= c && c <= '9'
}

pub open spec fn is_alnum(c: char) -> bool {
    is_upper(c) || is_lower(c) || is_digit(c)
}

/// `char::to_ascii_lowercase`.
pub open spec fn lower(c: char) -> char {
    if is_upper(c) {
        ((c as u32) + 32) as char
    } else {
        c
    }
}

/// `char::to_ascii_uppercase`.
pub open spec fn upper(c: char) -> char {
    if is_lower(c) {
        ((c as u32) - 32) as char
    } else {
        c
    }
}

pub open spec fn lower_seq(s: Seq<char>) -> Seq<char> {
    s.map_values(|c: char| lower(c))
}

/// `str::trim_start`.
pub open spec fn trim_start(s: Seq<char>) -> Seq<char>
    decreases s.len(),
{
    if s.len() > 0 && is_ws(s[0]) {
        trim_start(s.drop_first())
    } else {
        s
    }
}

/// `str::trim_end`.
pub open spec fn trim_end(s: Seq<char>) -> Seq<char>
    decreases s.len(),
{
    if s.len() > 0 && is_ws(s.last()) {
        trim_end(s.drop_last())
    } else {
        s
    }
}

/// `str::trim`.
pub open spec fn trim(s: Seq<char>) -> Seq<char> {
    trim_end(trim_start(s))
}

/// `str::trim_start_matches(c)` for one character.
pub open spec fn trim_start_char(s: Seq<char>, c: char) -> Seq<char>
    decreases s.len(),
{
    if s.len() > 0 && s[0] == c {
        trim_start_char(s.drop_first(), c)
    } else {
        s
    }
}

/// `str::trim_end_matches(c)` for one character.
pub open spec fn trim_end_char(s: Seq<char>, c: char) -> Seq<char>
    decreases s.len(),
{
    if s.len() > 0 && s.last() == c {
        trim_end_char(s.drop_last(), c)
    } else {
        s
    }
}

pub open spec fn starts_with(s: Seq<char>, p: Seq<char>) -> bool {
    p.len() <= s.len() && s.take(p.len() as int) == p
}

pub open spec fn ends_with(s: Seq<char>, p: Seq<char>) -> bool {
    p.len() <= s.len() && s.skip(s.len() - p.len()) == p
}

/// `str::strip_prefix`.
pub open spec fn strip_prefix(s: Seq<char>, p: Seq<char>) -> Option<Seq<char>> {
    if starts_with(s, p) {
        Some(s.skip(p.len() as int))
    } else {
        None
    }
}

/// `str::strip_suffix`.
pub open spec fn strip_suffix(s: Seq<char>, p: Seq<char>) -> Option<Seq<char>> {
    if ends_with(s, p) {
        Some(s.take(s.len() - p.len()))
    } else {
        None
    }
}

/// `p` occurs in `s` at `i`.
pub open spec fn occurs_at(s: Seq<char>, p: Seq<char>, i: int) -> bool {
    0 <= i && i + p.len() <= s.len() && s.subrange(i, i + p.len()) == p
}

/// `str::contains`.
pub open spec fn contains(s: Seq<char>, p: Seq<char>) -> bool {
    exists|i: int| occurs_at(s, p, i)
}

/// The first place at or after `i` where `p` occurs in `s`.
pub open spec fn find_from_spec(s: Seq<char>, p: Seq<char>, i: int) -> Option<int>
    decreases s.len() + 1 - i,
{
    if i < 0 || i > s.len() {
        None
    } else if occurs_at(s, p, i) {
        Some(i)
    } else {
        find_from_spec(s, p, i + 1)
    }
}

/// `str::find`: the first place `p` occurs in `s`.
pub open spec fn find(s: Seq<char>, p: Seq<char>) -> Option<int> {
    find_from_spec(s, p, 0)
}

/// The characters of `s`, in order.
pub fn chars_of(s: &str) -> (out: Vec<char>)
    ensures
        out@ == s@,
{
    let mut out: Vec<char> = Vec::new();
    for c in it: s.chars()
        invariant
            out@ == it.seq().take(it.index() as int),
    {
        out.push(c);
    }
    out
}

/// `String::push`.
#[verifier::external_body]
fn push_char(s: &mut String, c: char)
    ensures
        final(s)@ == old(s)@.push(c),
{
    s.push(c);
}

/// A `String` holding exactly these characters.
pub fn string_of(v: &Vec<char>) -> (out: String)
    ensures
        out@ == v@,
{
    let mut out = String::new();
    let n = v.len();
    for i in 0..n
        invariant
            n == v@.len(),
            out@ == v@.take(i as int),
    {
        push_char(&mut out, v[i]);
        assert(v@.take(i + 1) == v@.take(i as int).push(v@[i as int]));
    }
    assert(v@.take(n as int) == v@);
    out
}

pub fn is_ws_char(c: char) -> (r: bool)
    ensures
        r == is_ws(c),
{
    ('\t' <= c && c <= '\r') || c == ' ' || c == '\u{85}' || c == '\u{a0}' || c == '\u{1680}'
        || ('\u{2000}' <= c && c <= '\u{200a}') || c == '\u{2028}' || c == '\u{2029}'
        || c == '\u{202f}' || c == '\u{205f}' || c == '\u{3000}'
}

pub fn is_alnum_char(c: char) -> (r: bool)
    ensures
        r == is_alnum(c),
{
    ('A' <= c && c <= 'Z') || ('a' <= c && c <= 'z') || ('0' <= c && c <= '9')
}

pub fn to_lower(c: char) -> (r: char)
    ensures
        r == lower(c),
{
    if 'A' <= c && c <= 'Z' {
        let b: u8 = c as u8;
        (b + 32) as char
    } else {
        c
    }
}

pub fn to_upper(c: char) -> (r: char)
    ensures
        r == upper(c),
{
    if 'a' <= c && c <= 'z' {
        let b: u8 = c as u8;
        (b - 32) as char
    } else {
        c
    }
}

/// `v[i..j]`, copied.
pub fn slice_of(v: &Vec<char>, i: usize, j: usize) -> (out: Vec<char>)
    requires
        i <= j <= v@.len(),
    ensures
        out@ == v@.subrange(i as int, j as int),
{
    let mut out: Vec<char> = Vec::new();
    let mut k = i;
    while k < j
        invariant
            i <= k <= j <= v@.len(),
            out@ == v@.subrange(i as int, k as int),
        decreases j - k,
    {
        out.push(v[k]);
        k += 1;
    }
    out
}

/// Where `str::trim_start` would begin.
pub fn trim_start_at(v: &Vec<char>, from: usize) -> (i: usize)
    requires
        from <= v@.len(),
    ensures
        from <= i <= v@.len(),
        trim_start(v@.skip(from as int)) == v@.skip(i as int),
{
    let mut i = from;
    while i < v.len() && is_ws_char(v[i])
        invariant
            from <= i <= v@.len(),
            trim_start(v@.skip(from as int)) == trim_start(v@.skip(i as int)),
        decreases v@.len() - i,
    {
        assert(v@.skip(i as int).drop_first() == v@.skip(i + 1));
        i += 1;
    }
    i
}

/// Where `str::trim_end` would stop.
pub fn trim_end_at(v: &Vec<char>, from: usize, to: usize) -> (j: usize)
    requires
        from <= to <= v@.len(),
    ensures
        from <= j <= to,
        trim_end(v@.subrange(from as int, to as int)) == v@.subrange(from as int, j as int),
{
    let mut j = to;
    while j > from && is_ws_char(v[j - 1])
        invariant
            from <= j <= to <= v@.len(),
            trim_end(v@.subrange(from as int, to as int)) == trim_end(v@.subrange(from as int, j as int)),
        decreases j,
    {
        assert(v@.subrange(from as int, j as int).drop_last() == v@.subrange(from as int, j - 1));
        j -= 1;
    }
    j
}

/// `str::trim`.
pub fn trim_chars(v: &Vec<char>) -> (out: Vec<char>)
    ensures
        out@ == trim(v@),
{
    let i = trim_start_at(v, 0);
    assert(v@.skip(0) == v@);
    let j = trim_end_at(v, i, v.len());
    assert(v@.skip(i as int) == v@.subrange(i as int, v@.len() as int));
    slice_of(v, i, j)
}

/// `s + t` for a literal or borrowed `t`.
pub fn push_str(out: &mut Vec<char>, t: &str)
    ensures
        final(out)@ == old(out)@ + t@,
{
    let tv = chars_of(t);
    push_all(out, &tv);
}

pub fn push_all(out: &mut Vec<char>, t: &Vec<char>)
    ensures
        final(out)@ == old(out)@ + t@,
{
    let n = t.len();
    for i in 0..n
        invariant
            n == t@.len(),
            out@ == old(out)@ + t@.take(i as int),
    {
        out.push(t[i]);
        assert(t@.take(i + 1) == t@.take(i as int).push(t@[i as int]));
    }
    assert(t@.take(n as int) == t@);
}

/// `a == b`.
pub fn seq_eq(a: &Vec<char>, b: &Vec<char>) -> (r: bool)
    ensures
        r == (a@ == b@),
{
    if a.len() != b.len() {
        return false;
    }
    let n = a.len();
    for i in 0..n
        invariant
            n == a@.len() == b@.len(),
            forall|k: int| 0 <= k < i ==> a@[k] == b@[k],
    {
        if a[i] != b[i] {
            return false;
        }
    }
    assert(a@ =~= b@);
    true
}

/// `a == b` for two string slices.
pub fn str_eq(a: &str, b: &str) -> (r: bool)
    ensures
        r == (a@ == b@),
{
    let av = chars_of(a);
    let bv = chars_of(b);
    seq_eq(&av, &bv)
}

/// Does `p` occur in `v` at `i`?
pub fn occurs_at_exec(v: &Vec<char>, p: &Vec<char>, i: usize) -> (r: bool)
    ensures
        r == occurs_at(v@, p@, i as int),
{
    if i > v.len() || p.len() > v.len() - i {
        return false;
    }
    let n = p.len();
    let vl = v.len();
    for k in 0..n
        invariant
            n == p@.len(),
            vl == v@.len(),
            i + n <= v@.len(),
            forall|m: int| 0 <= m < k ==> v@[i + m] == p@[m],
    {
        assert(i + k < v@.len());
        if v[i + k] != p[k] {
            assert(v@.subrange(i as int, i + n)[k as int] != p@[k as int]);
            return false;
        }
    }
    assert(v@.subrange(i as int, i + n) =~= p@);
    true
}

/// `v.starts_with(p)`.
pub fn starts_with_exec(v: &Vec<char>, p: &str) -> (r: bool)
    ensures
        r == starts_with(v@, p@),
{
    let pv = chars_of(p);
    let r = occurs_at_exec(v, &pv, 0);
    proof {
        if r {
            assert(v@.take(pv@.len() as int) == v@.subrange(0, pv@.len() as int));
        } else if starts_with(v@, p@) {
            assert(v@.take(pv@.len() as int) == v@.subrange(0, pv@.len() as int));
        }
    }
    r
}

/// `v.ends_with(p)`.
pub fn ends_with_exec(v: &Vec<char>, p: &str) -> (r: bool)
    ensures
        r == ends_with(v@, p@),
{
    let pv = chars_of(p);
    if pv.len() > v.len() {
        return false;
    }
    let r = occurs_at_exec(v, &pv, v.len() - pv.len());
    proof {
        assert(v@.skip(v@.len() - pv@.len()) == v@.subrange(v@.len() - pv@.len(), v@.len() as int));
    }
    r
}

/// The first place `p` occurs in `v` at or after `from`.
pub fn find_from(v: &Vec<char>, p: &Vec<char>, from: usize) -> (r: Option<usize>)
    requires
        from <= v@.len(),
    ensures
        r matches Some(i) ==> find_from_spec(v@, p@, from as int) == Some(i as int) && occurs_at(v@, p@, i as int),
        r is None ==> find_from_spec(v@, p@, from as int) is None,
{
    let mut i = from;
    while i <= v.len()
        invariant
            from <= i,
            i <= v@.len() + 1,
            find_from_spec(v@, p@, from as int) == find_from_spec(v@, p@, i as int),
        decreases v@.len() + 1 - i,
    {
        if occurs_at_exec(v, p, i) {
            return Some(i);
        }
        if i == v.len() {
            proof {
                assert(find_from_spec(v@, p@, i + 1) is None);
            }
            return None;
        }
        i += 1;
    }
    None
}

/// `str::find`.
pub fn find_exec(v: &Vec<char>, p: &Vec<char>) -> (r: Option<usize>)
    ensures
        r matches Some(i) ==> find(v@, p@) == Some(i as int),
        r matches Some(i) ==> occurs_at(v@, p@, i as int),
        r is None ==> find(v@, p@) is None,
{
    find_from(v, p, 0)
}

} // verus!

verus! {

pub proof fn lemma_find_none(s: Seq<char>, p: Seq<char>, i: int)
    requires
        0 <= i,
        find_from_spec(s, p, i) is None,
    ensures
        forall|j: int| i <= j ==> !occurs_at(s, p, j),
    decreases s.len() + 1 - i,
{
    if i <= s.len() {
        lemma_find_none(s, p, i + 1);
    }
}

/// Does `p` occur in `v`?
pub fn contains_exec(v: &Vec<char>, p: &Vec<char>) -> (r: bool)
    ensures
        r == contains(v@, p@),
{
    match find_exec(v, p) {
        Some(i) => true,
        None => {
            proof {
                lemma_find_none(v@, p@, 0);
            }
            false
        },
    }
}

/// `parts` joined with `sep` between each two.
pub open spec fn join_str(parts: Seq<Seq<char>>, sep: Seq<char>) -> Seq<char>
    decreases parts.len(),
{
    if parts.len() == 0 {
        seq![]
    } else if parts.len() == 1 {
        parts[0]
    } else {
        join_str(parts.drop_last(), sep) + sep + parts.last()
    }
}

/// `parts.join(sep)`.
pub fn join_strings(parts: &Vec<String>, sep: &str) -> (out: String)
    ensures
        out@ == join_str(parts@.map_values(|s: String| s@), sep@),
{
    let ghost pv = parts@.map_values(|s: String| s@);
    let n = parts.len();
    let mut out: Vec<char> = Vec::new();
    for i in 0..n
        invariant
            n == parts@.len(),
            pv == parts@.map_values(|s: String| s@),
            out@ == join_str(pv.take(i as int), sep@),
    {
        proof {
            assert(pv.take(i + 1).drop_last() == pv.take(i as int));
            assert(pv.take(i + 1).last() == parts@[i as int]@);
            if i == 0 {
                assert(pv.take(1)[0] == parts@[0]@);
                assert(out@ == Seq::<char>::empty());
            }
        }
        if i > 0 {
            push_str(&mut out, sep);
        }
        let ghost before = out@;
        push_str(&mut out, parts[i].as_str());
        proof {
            if i == 0 {
                assert(out@ == before + parts@[0]@);
                assert(before == Seq::<char>::empty());
                assert(out@ =~= parts@[0]@);
            }
        }
    }
    proof {
        assert(pv.take(n as int) == pv);
    }
    string_of(&out)
}

/// Lexicographic order on characters, which for UTF-8 text is also the order
/// `str` compares its bytes in.
pub open spec fn seq_lt(a: Seq<char>, b: Seq<char>) -> bool
    decreases a.len(),
{
    if a.len() == 0 {
        b.len() > 0
    } else if b.len() == 0 {
        false
    } else if a[0] != b[0] {
        a[0] < b[0]
    } else {
        seq_lt(a.drop_first(), b.drop_first())
    }
}

/// `a < b` on two strings.
pub fn lex_lt(a: &Vec<char>, b: &Vec<char>) -> (r: bool)
    ensures
        r == seq_lt(a@, b@),
{
    let mut i: usize = 0;
    assert(a@.skip(0) == a@);
    assert(b@.skip(0) == b@);
    while i < a.len() && i < b.len()
        invariant
            i <= a@.len(),
            i <= b@.len(),
            seq_lt(a@, b@) == seq_lt(a@.skip(i as int), b@.skip(i as int)),
        decreases a@.len() - i,
    {
        if a[i] != b[i] {
            return a[i] < b[i];
        }
        assert(a@.skip(i as int).drop_first() == a@.skip(i + 1));
        assert(b@.skip(i as int).drop_first() == b@.skip(i + 1));
        i += 1;
    }
    i < b.len() && i == a.len()
}

pub proof fn lemma_seq_lt_irreflexive(a: Seq<char>)
    ensures
        !seq_lt(a, a),
    decreases a.len(),
{
    if a.len() > 0 {
        lemma_seq_lt_irreflexive(a.drop_first());
    }
}

pub proof fn lemma_seq_lt_asymmetric(a: Seq<char>, b: Seq<char>)
    ensures
        seq_lt(a, b) ==> !seq_lt(b, a),
    decreases a.len(),
{
    if a.len() > 0 && b.len() > 0 && a[0] == b[0] {
        lemma_seq_lt_asymmetric(a.drop_first(), b.drop_first());
    }
}

pub proof fn lemma_seq_lt_transitive(a: Seq<char>, b: Seq<char>, c: Seq<char>)
    ensures
        seq_lt(a, b) && seq_lt(b, c) ==> seq_lt(a, c),
    decreases a.len(),
{
    if a.len() > 0 && b.len() > 0 && c.len() > 0 {
        lemma_seq_lt_transitive(a.drop_first(), b.drop_first(), c.drop_first());
    }
}

pub proof fn lemma_seq_lt_total(a: Seq<char>, b: Seq<char>)
    ensures
        seq_lt(a, b) || seq_lt(b, a) || a == b,
    decreases a.len(),
{
    if a.len() > 0 && b.len() > 0 && a[0] == b[0] {
        lemma_seq_lt_total(a.drop_first(), b.drop_first());
        if a.drop_first() == b.drop_first() {
            assert forall|k: int| 0 <= k < a.len() implies a[k] == b[k] by {
                if k > 0 {
                    assert(a[k] == a.drop_first()[k - 1]);
                    assert(b[k] == b.drop_first()[k - 1]);
                }
            }
            assert(a =~= b);
        }
    } else if a.len() == 0 && b.len() == 0 {
        assert(a =~= b);
    }
}

/// Is `s` empty once trimmed?
pub fn is_blank(s: &str) -> (r: bool)
    ensures
        r == (trim(s@).len() == 0),
{
    let v = chars_of(s);
    let t = trim_chars(&v);
    t.len() == 0
}

pub open spec fn opt_view(o: Option<String>) -> Option<Seq<char>> {
    match o {
        Some(s) => Some(s@),
        None => None,
    }
}

} // verus!

verus! {

pub open spec fn is_path_sep(c: char) -> bool {
    c == '/' || c == '\\'
}

/// What follows the last `/` or `\` (all of `s` when there is none).
pub open spec fn last_segment(s: Seq<char>) -> Seq<char>
    decreases s.len(),
{
    if s.len() == 0 {
        s
    } else if is_path_sep(s.last()) {
        seq![]
    } else {
        last_segment(s.drop_last()).push(s.last())
    }
}

/// The last path segment, or the whole path when that segment is empty.
pub open spec fn leaf_of(path: Seq<char>) -> Seq<char> {
    if last_segment(path).len() == 0 {
        path
    } else {
        last_segment(path)
    }
}

/// The last path segment — what a reader recognises.
pub fn leaf(path: &str) -> (out: String)
    ensures
        out@ == leaf_of(path@),
{
    let v = chars_of(path);
    let mut i = v.len();
    assert(v@.take(i as int) == v@);
    assert(v@.skip(i as int) =~= Seq::<char>::empty());
    assert(v@ + Seq::<char>::empty() =~= v@);
    assert(last_segment(v@) + Seq::<char>::empty() =~= last_segment(v@));
    while i > 0 && !(v[i - 1] == '/' || v[i - 1] == '\\')
        invariant
            i <= v@.len(),
            last_segment(v@) == last_segment(v@.take(i as int)) + v@.skip(i as int),
        decreases i,
    {
        proof {
            let t = v@.take(i as int);
            assert(t.drop_last() == v@.take(i - 1));
            assert(v@.skip(i - 1) =~= seq![v@[i - 1]] + v@.skip(i as int));
            assert(last_segment(t) == last_segment(t.drop_last()).push(t.last()));
            assert(last_segment(t) + v@.skip(i as int) =~= last_segment(v@.take(i - 1)) + v@.skip(i - 1));
        }
        i -= 1;
    }
    proof {
        assert(v@.take(v@.len() as int) == v@);
        assert(last_segment(v@.take(i as int)) == Seq::<char>::empty());
        assert(v@.skip(i as int) == v@.subrange(i as int, v@.len() as int));
    }
    if i == v.len() {
        return path.to_owned();
    }
    let seg = slice_of(&v, i, v.len());
    string_of(&seg)
}

} // verus!

verus! {

/// `str::split(c)`: the pieces between occurrences of `c`, empty pieces
/// included, and one empty piece for an empty string.
pub open spec fn split_char(s: Seq<char>, c: char) -> Seq<Seq<char>>
    decreases s.len(),
{
    if s.len() == 0 {
        seq![seq![]]
    } else {
        let p = split_char(s.drop_last(), c);
        if s.last() == c {
            p.push(seq![])
        } else {
            p.update(p.len() - 1, p.last().push(s.last()))
        }
    }
}

pub proof fn lemma_split_char_nonempty(s: Seq<char>, c: char)
    ensures
        split_char(s, c).len() >= 1,
    decreases s.len(),
{
    if s.len() > 0 {
        lemma_split_char_nonempty(s.drop_last(), c);
    }
}

pub open spec fn vec_views(v: Seq<Vec<char>>) -> Seq<Seq<char>> {
    v.map_values(|w: Vec<char>| w@)
}

/// `str::split(c)`, collected.
pub fn split_char_exec(v: &Vec<char>, c: char) -> (out: Vec<Vec<char>>)
    ensures
        vec_views(out@) == split_char(v@, c),
        out@.len() >= 1,
{
    let mut done: Vec<Vec<char>> = Vec::new();
    let mut cur: Vec<char> = Vec::new();
    let n = v.len();
    for i in 0..n
        invariant
            n == v@.len(),
            vec_views(done@).push(cur@) == split_char(v@.take(i as int), c),
    {
        proof {
            assert(v@.take(i + 1).drop_last() == v@.take(i as int));
            assert(v@.take(i + 1).last() == v@[i as int]);
            lemma_split_char_nonempty(v@.take(i as int), c);
        }
        if v[i] == c {
            let finished = cur;
            proof {
                assert(vec_views(done@.push(finished)) =~= vec_views(done@).push(finished@));
            }
            done.push(finished);
            cur = Vec::new();
            proof {
                assert(vec_views(done@).push(cur@) =~= split_char(v@.take(i + 1), c));
            }
        } else {
            let ghost before = cur@;
            cur.push(v[i]);
            proof {
                assert(vec_views(done@).push(cur@) =~= vec_views(done@).push(before).update(vec_views(done@).len() as int, before.push(v@[i as int])));
            }
        }
    }
    proof {
        assert(v@.take(n as int) == v@);
        assert(vec_views(done@.push(cur)) =~= vec_views(done@).push(cur@));
    }
    done.push(cur);
    done
}

} // verus!

verus! {

/// `str::trim_start_matches(p)` for a nonempty literal.
pub open spec fn trim_start_str(s: Seq<char>, p: Seq<char>) -> Seq<char>
    decreases s.len(),
{
    if p.len() > 0 && starts_with(s, p) {
        trim_start_str(s.skip(p.len() as int), p)
    } else {
        s
    }
}

/// `s.strip_prefix(p)`, computed.
pub fn strip_prefix_exec(v: &Vec<char>, p: &str) -> (r: Option<Vec<char>>)
    ensures
        match r {
            Some(rest) => strip_prefix(v@, p@) == Some(rest@),
            None => strip_prefix(v@, p@) is None,
        },
{
    if starts_with_exec(v, p) {
        let k = p.unicode_len();
        proof {
            assert(v@.skip(k as int) == v@.subrange(k as int, v@.len() as int));
        }
        Some(slice_of(v, k, v.len()))
    } else {
        None
    }
}

/// `s.strip_suffix(p)`, computed.
pub fn strip_suffix_exec(v: &Vec<char>, p: &str) -> (r: Option<Vec<char>>)
    ensures
        match r {
            Some(rest) => strip_suffix(v@, p@) == Some(rest@),
            None => strip_suffix(v@, p@) is None,
        },
{
    if ends_with_exec(v, p) {
        let k = p.unicode_len();
        proof {
            assert(v@.take(v@.len() - k) == v@.subrange(0, v@.len() - k));
        }
        Some(slice_of(v, 0, v.len() - k))
    } else {
        None
    }
}

/// `s.trim_start_matches(p)` for a nonempty literal.
pub fn trim_start_str_exec(v: &Vec<char>, p: &str) -> (r: Vec<char>)
    requires
        p@.len() > 0,
    ensures
        r@ == trim_start_str(v@, p@),
{
    let mut cur = slice_of(v, 0, v.len());
    assert(v@.subrange(0, v@.len() as int) == v@);
    loop
        invariant
            p@.len() > 0,
            trim_start_str(v@, p@) == trim_start_str(cur@, p@),
        decreases cur@.len(),
    {
        match strip_prefix_exec(&cur, p) {
            Some(rest) => {
                cur = rest;
            },
            None => {
                return cur;
            },
        }
    }
}

/// `s.trim_end_matches(c)`.
pub fn trim_end_char_exec(v: &Vec<char>, c: char) -> (r: Vec<char>)
    ensures
        r@ == trim_end_char(v@, c),
{
    let mut end = v.len();
    assert(v@.take(end as int) == v@);
    while end > 0 && v[end - 1] == c
        invariant
            end <= v@.len(),
            trim_end_char(v@, c) == trim_end_char(v@.take(end as int), c),
        decreases end,
    {
        assert(v@.take(end as int).drop_last() == v@.take(end - 1));
        end -= 1;
    }
    assert(v@.subrange(0, end as int) == v@.take(end as int));
    slice_of(v, 0, end)
}

/// `s.trim_start_matches(c)`.
pub fn trim_start_char_exec(v: &Vec<char>, c: char) -> (r: Vec<char>)
    ensures
        r@ == trim_start_char(v@, c),
{
    let mut start: usize = 0;
    assert(v@.skip(0) == v@);
    while start < v.len() && v[start] == c
        invariant
            start <= v@.len(),
            trim_start_char(v@, c) == trim_start_char(v@.skip(start as int), c),
        decreases v@.len() - start,
    {
        assert(v@.skip(start as int).drop_first() == v@.skip(start + 1));
        start += 1;
    }
    assert(v@.subrange(start as int, v@.len() as int) == v@.skip(start as int));
    slice_of(v, start, v.len())
}

/// What `str::to_lowercase` gives for these characters: Unicode's full
/// lowercase mapping, which may change a string's length.
pub uninterp spec fn lowercase(s: Seq<char>) -> Seq<char>;

/// `str::to_lowercase`. Its result is named rather than stated: it is
/// `lowercase` of the argument's characters, whatever those are.
#[verifier::external_body]
pub(crate) fn to_lowercase(s: &str) -> (out: String)
    ensures
        out@ == lowercase(s@),
{
    s.to_lowercase()
}

/// What `char::is_alphanumeric` answers: Unicode's `Alphabetic` or
/// `Numeric` property.
pub uninterp spec fn alphanumeric(c: char) -> bool;

/// `char::is_alphanumeric`. Its result is named rather than stated.
#[verifier::external_body]
pub(crate) fn is_alphanumeric(c: char) -> (r: bool)
    ensures
        r == alphanumeric(c),
{
    c.is_alphanumeric()
}

/// What `char::is_alphabetic` answers: Unicode's `Alphabetic` property.
pub uninterp spec fn alphabetic(c: char) -> bool;

/// `char::is_alphabetic`. Its result is named rather than stated.
#[verifier::external_body]
pub(crate) fn is_alphabetic(c: char) -> (r: bool)
    ensures
        r == alphabetic(c),
{
    c.is_alphabetic()
}

/// A carriage return before the line's end is not part of the line.
pub open spec fn strip_cr(s: Seq<char>) -> Seq<char> {
    if s.len() > 0 && s.last() == '\r' {
        s.drop_last()
    } else {
        s
    }
}

/// `str::lines`: the text split at each `\n`, a `\r` just before a `\n`
/// dropped with it, and a final empty line not counted.
pub open spec fn str_lines(text: Seq<char>) -> Seq<Seq<char>> {
    let ps = split_char(text, '\n');
    let count = if ps.last().len() == 0 { ps.len() - 1 } else { ps.len() as int };
    Seq::new(count as nat, |i: int| if i < ps.len() - 1 { strip_cr(ps[i]) } else { ps[i] })
}

/// `text.lines()`, collected.
pub fn lines_exec(text: &str) -> (out: Vec<Vec<char>>)
    ensures
        vec_views(out@) == str_lines(text@),
{
    let parts = split_char_exec(&chars_of(text), '\n');
    let ghost ps = vec_views(parts@);
    let np = parts.len();
    let count = if parts[np - 1].len() == 0 { np - 1 } else { np };
    proof {
        assert(ps.last() == parts@[np - 1]@);
    }
    let mut out: Vec<Vec<char>> = Vec::new();
    for i in 0..count
        invariant
            np == parts@.len(),
            ps == vec_views(parts@),
            ps == split_char(text@, '\n'),
            count <= np,
            count == str_lines(text@).len(),
            vec_views(out@) == str_lines(text@).take(i as int),
    {
        let p = &parts[i];
        proof {
            assert(ps[i as int] == p@);
        }
        let line = if i + 1 < np && p.len() > 0 && p[p.len() - 1] == '\r' {
            let l = slice_of(p, 0, p.len() - 1);
            proof {
                assert(p@.subrange(0, p@.len() - 1) == p@.drop_last());
                assert(strip_cr(p@) == p@.drop_last());
            }
            l
        } else {
            let l = slice_of(p, 0, p.len());
            proof {
                assert(p@.subrange(0, p@.len() as int) == p@);
                if i + 1 < np {
                    assert(strip_cr(p@) == p@);
                }
            }
            l
        };
        proof {
            assert(line@ == str_lines(text@)[i as int]);
        }
        let ghost before = vec_views(out@);
        let ghost lv = line@;
        out.push(line);
        proof {
            assert(vec_views(out@) =~= before.push(lv));
            assert(str_lines(text@).take(i + 1) =~= str_lines(text@).take(i as int).push(lv));
        }
    }
    proof {
        assert(str_lines(text@).take(count as int) =~= str_lines(text@));
    }
    out
}

/// No two entries share a key: a map held as a list of pairs.
pub open spec fn keys_unique<V>(m: Seq<(String, V)>) -> bool {
    forall|i: int, j: int| 0 <= i < j < m.len() ==> (#[trigger] m[i]).0@ != (#[trigger] m[j]).0@
}

/// The texts of a list of strings.
pub open spec fn string_views(v: Seq<String>) -> Seq<Seq<char>> {
    v.map_values(|s: String| s@)
}

} // verus!
