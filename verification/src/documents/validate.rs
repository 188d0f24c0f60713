//! Structural conformance check: given a document's markdown and its type's
//! [`TemplateSpec`], decide whether it structurally matches the template —
//! required sections present (by heading), per-section minimum length,
//! required front-matter keys filled, no leftover template placeholders, and
//! a non-trivial title. Purely structural: a genuinely filled document never
//! trips a false positive.

use vstd::prelude::*;

use crate::text::string_views;
use crate::documents::model::{section_titles, Section, TemplateSpec};
use crate::numbers::{decimal, decimal_of};
use crate::text::{
    alphabetic, alphanumeric, chars_of, contains, contains_exec, find, find_exec, find_from_spec, is_alphabetic,
    is_alphanumeric, is_lower, is_digit, is_ws, is_ws_char, lemma_split_char_nonempty, lines_exec,
    lowercase, occurs_at, opt_view, push_all, push_str, seq_eq, slice_of, split_char, starts_with,
    starts_with_exec, str_eq, str_lines, string_of, strip_prefix, strip_prefix_exec, to_lowercase,
    trim, trim_chars, trim_start, trim_start_at, trim_start_char, trim_start_char_exec, vec_views,
};

verus! {

/// Per-section result, driving the UI checklist.
#[derive(Clone, Debug, PartialEq, Eq)]
pub struct SectionStatus {
    pub key: String,
    pub title: String,
    /// A matching heading was found.
    pub present: bool,
    /// Words in the section body.
    pub word_count: usize,
    /// Required, from the template.
    pub required: bool,
    /// Filled in: present, non-empty, and long enough.
    pub ok: bool,
}

/// The whole conformance report.
#[derive(Clone, Debug, PartialEq, Eq)]
pub struct ValidationReport {
    pub conforms: bool,
    pub sections: Vec<SectionStatus>,
    pub issues: Vec<String>,
}

/// Trimmed and lower-cased.
pub open spec fn normalize(s: Seq<char>) -> Seq<char> {
    lowercase(trim(s))
}

fn normalize_exec(s: &Vec<char>) -> (out: Vec<char>)
    ensures
        out@ == normalize(s@),
{
    let t = string_of(&trim_chars(s));
    chars_of(to_lowercase(t.as_str()).as_str())
}

/// The position of the first white-space character.
pub open spec fn first_ws(s: Seq<char>, i: nat) -> Option<int>
    decreases s.len() - i,
{
    if i >= s.len() {
        None
    } else if is_ws(s[i as int]) {
        Some(i as int)
    } else {
        first_ws(s, i + 1)
    }
}

/// A section number: starts with a digit, then digits and dots.
pub open spec fn is_section_number(num: Seq<char>) -> bool {
    num.len() > 0 && is_digit(num[0]) && forall|i: int|
        0 <= i < num.len() ==> is_digit(#[trigger] num[i]) || num[i] == '.'
}

/// A heading title reduced to what a template names it by: lower-cased,
/// with a leading section number dropped (`## 5. Functional Requirements`).
pub open spec fn normalize_heading(s: Seq<char>) -> Seq<char> {
    let t = trim(s);
    match first_ws(t, 0) {
        Some(i) => if is_section_number(t.take(i)) {
            normalize(t.skip(i + 1))
        } else {
            normalize(t)
        },
        None => normalize(t),
    }
}

fn first_ws_exec(v: &Vec<char>) -> (out: Option<usize>)
    ensures
        match out {
            Some(i) => first_ws(v@, 0) == Some(i as int) && i < v@.len(),
            None => first_ws(v@, 0) is None,
        },
{
    let n = v.len();
    let mut i: usize = 0;
    while i < n
        invariant
            n == v@.len(),
            i <= n,
            first_ws(v@, 0) == first_ws(v@, i as nat),
        decreases n - i,
    {
        if is_ws_char(v[i]) {
            return Some(i);
        }
        i = i + 1;
    }
    None
}

fn is_section_number_exec(v: &Vec<char>, end: usize) -> (r: bool)
    requires
        end <= v@.len(),
    ensures
        r == is_section_number(v@.take(end as int)),
{
    if end == 0 || !('0' <= v[0] && v[0] <= '9') {
        return false;
    }
    for i in 0..end
        invariant
            end <= v@.len(),
            forall|k: int| 0 <= k < i ==> is_digit(#[trigger] v@.take(end as int)[k]) || v@.take(end as int)[k] == '.',
    {
        if !(('0' <= v[i] && v[i] <= '9') || v[i] == '.') {
            proof {
                assert(v@.take(end as int)[i as int] == v@[i as int]);
            }
            return false;
        }
    }
    true
}

pub fn normalize_heading_exec(s: &Vec<char>) -> (out: Vec<char>)
    ensures
        out@ == normalize_heading(s@),
{
    let t = trim_chars(s);
    let n = t.len();
    match first_ws_exec(&t) {
        Some(i) => {
            if is_section_number_exec(&t, i) {
                let rest = slice_of(&t, i + 1, n);
                proof {
                    assert(rest@ == t@.skip(i + 1));
                }
                normalize_exec(&rest)
            } else {
                normalize_exec(&t)
            }
        },
        None => normalize_exec(&t),
    }
}

/// How many words `split_whitespace` finds: maximal runs of characters that
/// are not white space.
pub open spec fn word_count(s: Seq<char>) -> nat
    decreases s.len(),
{
    if s.len() == 0 {
        0
    } else if is_ws(s.last()) {
        word_count(s.drop_last())
    } else if s.len() >= 2 && !is_ws(s[s.len() - 2]) {
        word_count(s.drop_last())
    } else {
        word_count(s.drop_last()) + 1
    }
}

proof fn lemma_word_count_bound(s: Seq<char>)
    ensures
        word_count(s) <= s.len(),
    decreases s.len(),
{
    if s.len() > 0 {
        lemma_word_count_bound(s.drop_last());
    }
}

fn word_count_exec(v: &Vec<char>) -> (out: usize)
    ensures
        out == word_count(v@),
{
    let n = v.len();
    let mut count: usize = 0;
    for i in 0..n
        invariant
            n == v@.len(),
            count == word_count(v@.take(i as int)),
            count <= i,
    {
        proof {
            assert(v@.take(i + 1).drop_last() == v@.take(i as int));
            assert(v@.take(i + 1).last() == v@[i as int]);
            if i >= 1 {
                assert(v@.take(i + 1)[i - 1] == v@[i - 1]);
            }
        }
        if !is_ws_char(v[i]) && (i == 0 || is_ws_char(v[i - 1])) {
            count = count + 1;
        }
    }
    proof {
        assert(v@.take(n as int) == v@);
    }
    count
}

/// How many bytes UTF-8 takes for `c` (`char::len_utf8`).
pub open spec fn utf8_width(c: char) -> nat {
    if (c as u32) < 0x80 {
        1
    } else if (c as u32) < 0x800 {
        2
    } else if (c as u32) < 0x10000 {
        3
    } else {
        4
    }
}

/// How many bytes UTF-8 takes for `s` (`str::len`).
pub open spec fn byte_len(s: Seq<char>) -> nat
    decreases s.len(),
{
    if s.len() == 0 {
        0
    } else {
        byte_len(s.drop_last()) + utf8_width(s.last())
    }
}

/// `s.get(n..).unwrap_or("")` with `n` a byte offset: the text from the
/// character that starts `n` bytes in, or nothing where no character starts
/// there.
pub open spec fn skip_bytes(s: Seq<char>, n: int) -> Seq<char>
    decreases s.len(),
{
    if n <= 0 {
        s
    } else if s.len() == 0 {
        seq![]
    } else if utf8_width(s[0]) > n {
        seq![]
    } else {
        skip_bytes(s.drop_first(), n - utf8_width(s[0]))
    }
}

pub proof fn lemma_byte_len_concat(a: Seq<char>, b: Seq<char>)
    ensures
        byte_len(a + b) == byte_len(a) + byte_len(b),
    decreases b.len(),
{
    if b.len() > 0 {
        lemma_byte_len_concat(a, b.drop_last());
        assert((a + b).drop_last() == a + b.drop_last());
    } else {
        assert(a + b == a);
    }
}

proof fn lemma_byte_len_first(s: Seq<char>)
    requires
        s.len() > 0,
    ensures
        byte_len(s) == utf8_width(s[0]) + byte_len(s.drop_first()),
{
    lemma_byte_len_concat(seq![s[0]], s.drop_first());
    assert(seq![s[0]] + s.drop_first() == s);
    assert(seq![s[0]].drop_last() == Seq::<char>::empty());
    assert(byte_len(Seq::<char>::empty()) == 0);
    assert(byte_len(seq![s[0]]) == utf8_width(s[0]));
}

proof fn lemma_skip_bytes_past_end(s: Seq<char>, n: int)
    requires
        n > byte_len(s),
    ensures
        skip_bytes(s, n) == Seq::<char>::empty(),
    decreases s.len(),
{
    if s.len() > 0 {
        lemma_byte_len_first(s);
        if utf8_width(s[0]) <= n {
            lemma_skip_bytes_past_end(s.drop_first(), n - utf8_width(s[0]));
        }
    }
}

fn utf8_width_exec(c: char) -> (w: usize)
    ensures
        w == utf8_width(c),
{
    let u = c as u32;
    if u < 0x80 {
        1
    } else if u < 0x800 {
        2
    } else if u < 0x10000 {
        3
    } else {
        4
    }
}

/// `byte_len`, held at `usize::MAX` where it would pass it.
fn byte_len_sat(v: &Vec<char>) -> (n: usize)
    ensures
        n == if byte_len(v@) > usize::MAX { usize::MAX as int } else { byte_len(v@) as int },
{
    let len = v.len();
    let mut n: usize = 0;
    for i in 0..len
        invariant
            len == v@.len(),
            n == if byte_len(v@.take(i as int)) > usize::MAX { usize::MAX as int } else { byte_len(v@.take(i as int)) as int },
    {
        proof {
            assert(v@.take(i + 1).drop_last() == v@.take(i as int));
        }
        n = n.saturating_add(utf8_width_exec(v[i]));
    }
    proof {
        assert(v@.take(len as int) == v@);
    }
    n
}

fn skip_bytes_exec(v: &Vec<char>, n: usize) -> (out: Vec<char>)
    ensures
        out@ == skip_bytes(v@, n as int),
{
    let len = v.len();
    let mut i: usize = 0;
    let mut rem = n;
    proof {
        assert(v@.skip(0) == v@);
    }
    while i < len && rem > 0
        invariant
            len == v@.len(),
            i <= len,
            skip_bytes(v@, n as int) == skip_bytes(v@.skip(i as int), rem as int),
        decreases len - i,
    {
        let w = utf8_width_exec(v[i]);
        proof {
            assert(v@.skip(i as int)[0] == v@[i as int]);
            assert(v@.skip(i as int).drop_first() == v@.skip(i + 1));
        }
        if w > rem {
            return Vec::new();
        }
        rem = rem - w;
        i = i + 1;
    }
    if rem > 0 {
        proof {
            assert(v@.skip(i as int).len() == 0);
        }
        return Vec::new();
    }
    slice_of(v, i, len)
}

/// The first line at or after `i` that is a closing fence, `---`.
pub open spec fn fence_line(lines: Seq<Seq<char>>, i: int) -> Option<int>
    decreases lines.len() - i,
{
    if i < 0 || i >= lines.len() {
        None
    } else if trim(lines[i]) == seq!['-', '-', '-'] {
        Some(i)
    } else {
        fence_line(lines, i + 1)
    }
}

/// A front-matter line's `key: value`, split at its first colon; the key
/// normalized and the value trimmed.
pub open spec fn fm_entry(line: Seq<char>) -> Option<(Seq<char>, Seq<char>)> {
    match find(line, seq![':']) {
        Some(p) => Some((normalize(line.take(p)), trim(line.skip(p + 1)))),
        None => None,
    }
}

/// The entries of the front-matter lines, in order.
pub open spec fn fm_entries(lines: Seq<Seq<char>>) -> Seq<(Seq<char>, Seq<char>)>
    decreases lines.len(),
{
    if lines.len() == 0 {
        seq![]
    } else {
        let e = fm_entries(lines.drop_last());
        match fm_entry(lines.last()) {
            Some(kv) => e.push(kv),
            None => e,
        }
    }
}

/// What the front matter holds for `key`: the value of the last line that
/// gave it, as a map filled in line order keeps it.
pub open spec fn fm_get(entries: Seq<(Seq<char>, Seq<char>)>, key: Seq<char>) -> Option<Seq<char>>
    decreases entries.len(),
{
    if entries.len() == 0 {
        None
    } else if entries.last().0 == key {
        Some(entries.last().1)
    } else {
        fm_get(entries.drop_last(), key)
    }
}

/// The bytes the lines take with one line break each.
pub open spec fn lines_bytes(lines: Seq<Seq<char>>) -> nat
    decreases lines.len(),
{
    if lines.len() == 0 {
        0
    } else {
        lines_bytes(lines.drop_last()) + byte_len(lines.last()) + 1
    }
}

/// The text after an opening fence line, `---` and a line break.
pub open spec fn after_open_fence(content: Seq<char>) -> Option<Seq<char>> {
    match strip_prefix(content, seq!['-', '-', '-', '\n']) {
        Some(a) => Some(a),
        None => strip_prefix(content, seq!['-', '-', '-', '\r', '\n']),
    }
}

/// A leading `--- ... ---` block split from the body: its `key: value`
/// entries and the markdown after it. Without an opening and a closing
/// fence there is no front matter and the body is the whole text. The body
/// starts at the byte offset the fence lines take when each is counted with
/// one line break, as the text is cut by bytes.
pub open spec fn front_matter_split(content: Seq<char>) -> (Seq<(Seq<char>, Seq<char>)>, Seq<char>) {
    match after_open_fence(content) {
        None => (seq![], content),
        Some(after) => {
            let lines = str_lines(after);
            match fence_line(lines, 0) {
                None => (seq![], content),
                Some(end) => (
                    fm_entries(lines.take(end)),
                    skip_bytes(after, lines_bytes(lines.take(end + 1)) as int),
                ),
            }
        },
    }
}

pub open spec fn pair_views(v: Seq<(String, String)>) -> Seq<(Seq<char>, Seq<char>)> {
    v.map_values(|p: (String, String)| (p.0@, p.1@))
}

fn fence_line_exec(lines: &Vec<Vec<char>>) -> (r: Option<usize>)
    ensures
        match r {
            Some(i) => fence_line(vec_views(lines@), 0) == Some(i as int) && i < lines@.len(),
            None => fence_line(vec_views(lines@), 0) is None,
        },
{
    let n = lines.len();
    let mut i: usize = 0;
    let fence: Vec<char> = vec!['-', '-', '-'];
    while i < n
        invariant
            n == lines@.len(),
            i <= n,
            fence@ == seq!['-', '-', '-'],
            fence_line(vec_views(lines@), 0) == fence_line(vec_views(lines@), i as int),
        decreases n - i,
    {
        proof {
            assert(vec_views(lines@)[i as int] == lines@[i as int]@);
        }
        if seq_eq(&trim_chars(&lines[i]), &fence) {
            return Some(i);
        }
        i = i + 1;
    }
    None
}

fn fm_entry_exec(line: &Vec<char>) -> (r: Option<(String, String)>)
    ensures
        match r {
            Some(kv) => fm_entry(line@) == Some((kv.0@, kv.1@)),
            None => fm_entry(line@) is None,
        },
{
    let n = line.len();
    let colon: Vec<char> = vec![':'];
    assert(colon@ == seq![':']);
    match find_exec(line, &colon) {
        Some(p) => {
            assert(p + 1 <= line@.len());
            let k = normalize_exec(&slice_of(line, 0, p));
            let v = trim_chars(&slice_of(line, p + 1, n));
            proof {
                assert(line@.subrange(0, p as int) == line@.take(p as int));
                assert(line@.subrange(p + 1, line@.len() as int) == line@.skip(p + 1));
            }
            Some((string_of(&k), string_of(&v)))
        },
        None => None,
    }
}

/// Split front matter (a leading `--- ... ---` block) from the body,
/// returning its `key: value` entries in line order and the remaining
/// markdown.
pub fn split_front_matter(content: &str) -> (out: (Vec<(String, String)>, String))
    requires
        byte_len(content@) <= isize::MAX,
    ensures
        (pair_views(out.0@), out.1@) == front_matter_split(content@),
{
    let v = chars_of(content);
    let after = match strip_prefix_exec(&v, "---\n") {
        Some(a) => Some(a),
        None => strip_prefix_exec(&v, "---\r\n"),
    };
    proof {
        reveal_strlit("---\n");
        reveal_strlit("---\r\n");
        assert("---\n"@ == seq!['-', '-', '-', '\n']);
        assert("---\r\n"@ == seq!['-', '-', '-', '\r', '\n']);
    }
    let after = match after {
        Some(a) => a,
        None => {
            return (Vec::new(), string_of(&v));
        },
    };
    let after_s = string_of(&after);
    let lines = lines_exec(after_s.as_str());
    let end = match fence_line_exec(&lines) {
        Some(e) => e,
        None => {
            return (Vec::new(), string_of(&v));
        },
    };
    let ghost ls = vec_views(lines@);
    let mut fm: Vec<(String, String)> = Vec::new();
    for k in 0..end
        invariant
            end < lines@.len(),
            ls == vec_views(lines@),
            pair_views(fm@) == fm_entries(ls.take(k as int)),
    {
        proof {
            assert(ls.take(k + 1).drop_last() == ls.take(k as int));
            assert(ls.take(k + 1).last() == lines@[k as int]@);
        }
        let ghost before = fm@;
        match fm_entry_exec(&lines[k]) {
            Some(kv) => {
                fm.push(kv);
                proof {
                    assert(pair_views(fm@) == pair_views(before).push((kv.0@, kv.1@)));
                }
            },
            None => {},
        }
    }
    let nl = lines.len();
    let stop = end + 1;
    let mut idx: usize = 0;
    for k in 0..stop
        invariant
            stop == end + 1,
            end < lines@.len(),
            ls == vec_views(lines@),
            idx == if lines_bytes(ls.take(k as int)) > usize::MAX { usize::MAX as int } else { lines_bytes(ls.take(k as int)) as int },
    {
        proof {
            assert(ls.take(k + 1).drop_last() == ls.take(k as int));
            assert(ls.take(k + 1).last() == lines@[k as int]@);
        }
        idx = idx.saturating_add(byte_len_sat(&lines[k])).saturating_add(1);
    }
    proof {
        let total = lines_bytes(ls.take(end + 1));
        if total > usize::MAX {
            lemma_byte_len_concat(content@.take(content@.len() - after@.len()), after@);
            assert(content@.take(content@.len() - after@.len()) + after@ == content@);
            lemma_skip_bytes_past_end(after@, idx as int);
            lemma_skip_bytes_past_end(after@, total as int);
        }
    }
    let body = skip_bytes_exec(&after, idx);
    (fm, string_of(&body))
}

pub proof fn lemma_find_from_occurs(s: Seq<char>, p: Seq<char>, i: int)
    ensures
        find_from_spec(s, p, i) matches Some(r) ==> occurs_at(s, p, r) && i <= r,
    decreases s.len() + 1 - i,
{
    if 0 <= i <= s.len() && !occurs_at(s, p, i) {
        lemma_find_from_occurs(s, p, i + 1);
    }
}

/// The part of `rest` outside HTML comments, and whether a comment is still
/// open at its end. `in_comment` says whether one is open at its start.
pub open spec fn strip_comments(rest: Seq<char>, in_comment: bool) -> (Seq<char>, bool)
    decreases rest.len(),
{
    if in_comment {
        match find(rest, seq!['-', '-', '>']) {
            Some(e) => {
                proof {
                    lemma_find_from_occurs(rest, seq!['-', '-', '>'], 0);
                }
                strip_comments(rest.skip(e + 3), false)
            },
            None => (seq![], true),
        }
    } else {
        match find(rest, seq!['<', '!', '-', '-']) {
            Some(s) => {
                proof {
                    lemma_find_from_occurs(rest, seq!['<', '!', '-', '-'], 0);
                }
                let r = strip_comments(rest.skip(s + 4), true);
                (rest.take(s) + r.0, r.1)
            },
            None => (rest, false),
        }
    }
}

proof fn lemma_strip_comments_len(rest: Seq<char>, in_comment: bool)
    ensures
        strip_comments(rest, in_comment).0.len() <= rest.len(),
    decreases rest.len(),
{
    if in_comment {
        lemma_find_from_occurs(rest, seq!['-', '-', '>'], 0);
        if let Some(e) = find(rest, seq!['-', '-', '>']) {
            lemma_strip_comments_len(rest.skip(e + 3), false);
        }
    } else {
        lemma_find_from_occurs(rest, seq!['<', '!', '-', '-'], 0);
        if let Some(s) = find(rest, seq!['<', '!', '-', '-']) {
            lemma_strip_comments_len(rest.skip(s + 4), true);
        }
    }
}

fn strip_comments_exec(line: &Vec<char>, in_comment: bool) -> (out: (Vec<char>, bool))
    ensures
        (out.0@, out.1) == strip_comments(line@, in_comment),
        out.0@.len() <= line@.len(),
{
    proof {
        lemma_strip_comments_len(line@, in_comment);
    }
    let open: Vec<char> = vec!['<', '!', '-', '-'];
    let close: Vec<char> = vec!['-', '-', '>'];
    assert(open@ == seq!['<', '!', '-', '-']);
    assert(close@ == seq!['-', '-', '>']);
    let mut out: Vec<char> = Vec::new();
    let mut rest: Vec<char> = slice_of(line, 0, line.len());
    let mut c = in_comment;
    assert(line@.subrange(0, line@.len() as int) == line@);
    loop
        invariant
            open@ == seq!['<', '!', '-', '-'],
            close@ == seq!['-', '-', '>'],
            strip_comments(line@, in_comment).0.len() <= line@.len(),
            strip_comments(line@, in_comment) == (out@ + strip_comments(rest@, c).0, strip_comments(rest@, c).1),
        decreases rest@.len(),
    {
        let n = rest.len();
        if c {
            match find_exec(&rest, &close) {
                Some(e) => {
                    proof {
                        assert(strip_comments(rest@, c) == strip_comments(rest@.skip(e + 3), false));
                        assert(rest@.subrange(e + 3, n as int) == rest@.skip(e + 3));
                    }
                    rest = slice_of(&rest, e + 3, n);
                    c = false;
                },
                None => {
                    proof {
                        assert(out@ + Seq::<char>::empty() == out@);
                    }
                    return (out, true);
                },
            }
        } else {
            match find_exec(&rest, &open) {
                Some(s) => {
                    let ghost r = strip_comments(rest@.skip(s + 4), true);
                    proof {
                        assert(strip_comments(rest@, c) == (rest@.take(s as int) + r.0, r.1));
                        assert(rest@.subrange(0, s as int) == rest@.take(s as int));
                        assert(rest@.subrange(s + 4, n as int) == rest@.skip(s + 4));
                    }
                    let head = slice_of(&rest, 0, s);
                    let ghost out_old = out@;
                    push_all(&mut out, &head);
                    rest = slice_of(&rest, s + 4, n);
                    c = true;
                    proof {
                        assert(out@ + r.0 == out_old + (head@ + r.0));
                    }
                },
                None => {
                    push_all(&mut out, &rest);
                    return (out, false);
                },
            }
        }
    }
}

/// A line that opens or closes a fenced code block.
pub open spec fn is_fence(line: Seq<char>) -> bool {
    let t = trim_start(line);
    starts_with(t, seq!['`', '`', '`']) || starts_with(t, seq!['~', '~', '~'])
}

/// How many `#` the text starts with.
pub open spec fn leading_hashes(t: Seq<char>) -> nat
    decreases t.len(),
{
    if t.len() > 0 && t[0] == '#' {
        1 + leading_hashes(t.drop_first())
    } else {
        0
    }
}

/// The scan of a body: each heading's level, title and the words directly
/// under it, with whether a fence and a comment are open.
pub type HeadingScan = (Seq<(nat, Seq<char>, nat)>, bool, bool);

/// One line of the scan. A fence line toggles the fence. Outside a fence,
/// comments are cut away; a line of one to six `#` and a space is a heading;
/// any other line adds its words to the last heading.
pub open spec fn heading_step(st: HeadingScan, line: Seq<char>) -> HeadingScan {
    let own = st.0;
    let in_fence = st.1;
    let in_comment = st.2;
    if !in_comment && is_fence(line) {
        (own, !in_fence, in_comment)
    } else {
        let vis = if in_fence { (line, in_comment) } else { strip_comments(line, in_comment) };
        let t = trim_start(vis.0);
        let h = leading_hashes(t);
        if !in_fence && 1 <= h <= 6 && h < t.len() && t[h as int] == ' ' {
            (own.push((h, trim(t.skip(h as int)), 0)), in_fence, vis.1)
        } else if own.len() > 0 {
            let last = own.last();
            (own.update(own.len() - 1, (last.0, last.1, last.2 + word_count(vis.0))), in_fence, vis.1)
        } else {
            (own, in_fence, vis.1)
        }
    }
}

pub open spec fn heading_scan(lines: Seq<Seq<char>>) -> HeadingScan
    decreases lines.len(),
{
    if lines.len() == 0 {
        (seq![], false, false)
    } else {
        heading_step(heading_scan(lines.drop_last()), lines.last())
    }
}

/// The words of the headings from `j` on that sit deeper than heading `i`,
/// up to the first that does not.
pub open spec fn nested_words(own: Seq<(nat, Seq<char>, nat)>, i: int, j: int) -> nat
    decreases own.len() - j,
{
    if j < 0 || j >= own.len() || own[j].0 <= own[i].0 {
        0
    } else {
        own[j].2 + nested_words(own, i, j + 1)
    }
}

/// A heading found in a document.
pub struct Heading {
    pub level: usize,
    /// The title, normalized as `normalize_heading` does.
    pub title_norm: String,
    /// The words of its body: up to the next heading at the same or a
    /// higher level, so a sub-heading's prose counts for its parent.
    pub body_words: usize,
}

/// The headings of a body, each with its level, normalized title and the
/// words of its body.
pub open spec fn headings_of(body: Seq<char>) -> Seq<(nat, Seq<char>, nat)> {
    let own = heading_scan(str_lines(body)).0;
    Seq::new(own.len(), |i: int| (own[i].0, normalize_heading(own[i].1), own[i].2 + nested_words(own, i, i + 1)))
}

pub open spec fn heading_views(hs: Seq<Heading>) -> Seq<(nat, Seq<char>, nat)> {
    hs.map_values(|h: Heading| (h.level as nat, h.title_norm@, h.body_words as nat))
}

/// The words under the headings from `j` on.
pub open spec fn words_from(own: Seq<(nat, Seq<char>, nat)>, j: int) -> nat
    decreases own.len() - j,
{
    if j < 0 || j >= own.len() {
        0
    } else {
        own[j].2 + words_from(own, j + 1)
    }
}

pub open spec fn total_len(ls: Seq<Seq<char>>) -> nat
    decreases ls.len(),
{
    if ls.len() == 0 {
        0
    } else {
        total_len(ls.drop_last()) + ls.last().len()
    }
}

proof fn lemma_words_from_push(own: Seq<(nat, Seq<char>, nat)>, x: (nat, Seq<char>, nat), j: int)
    requires
        0 <= j <= own.len(),
    ensures
        words_from(own.push(x), j) == words_from(own, j) + x.2,
    decreases own.len() - j,
{
    if j < own.len() {
        lemma_words_from_push(own, x, j + 1);
        assert(own.push(x)[j] == own[j]);
    } else {
        assert(own.push(x)[j] == x);
        assert(words_from(own.push(x), j + 1) == 0);
        assert(words_from(own, j) == 0);
    }
}

proof fn lemma_words_from_update(own: Seq<(nat, Seq<char>, nat)>, k: int, x: (nat, Seq<char>, nat), j: int)
    requires
        0 <= j <= k < own.len(),
        x.2 >= own[k].2,
    ensures
        words_from(own.update(k, x), j) == words_from(own, j) + (x.2 - own[k].2),
    decreases own.len() - j,
{
    if j < k {
        lemma_words_from_update(own, k, x, j + 1);
    } else {
        assert(own.update(k, x)[k] == x);
        lemma_words_from_same(own.update(k, x), own, k + 1);
    }
}

proof fn lemma_words_from_same(a: Seq<(nat, Seq<char>, nat)>, b: Seq<(nat, Seq<char>, nat)>, j: int)
    requires
        a.len() == b.len(),
        0 <= j,
        forall|k: int| j <= k < a.len() ==> a[k].2 == b[k].2,
    ensures
        words_from(a, j) == words_from(b, j),
    decreases a.len() - j,
{
    if j < a.len() {
        lemma_words_from_same(a, b, j + 1);
    }
}

proof fn lemma_words_from_mono(own: Seq<(nat, Seq<char>, nat)>, i: int, j: int)
    requires
        0 <= i <= j,
    ensures
        words_from(own, j) <= words_from(own, i),
    decreases j - i,
{
    if i < j {
        lemma_words_from_mono(own, i + 1, j);
    }
}

proof fn lemma_total_len_le(a: Seq<Seq<char>>, b: Seq<Seq<char>>)
    requires
        a.len() <= b.len(),
        forall|k: int| 0 <= k < a.len() ==> a[k].len() <= b[k].len(),
    ensures
        total_len(a) <= total_len(b),
    decreases b.len(),
{
    if b.len() > 0 {
        if a.len() == b.len() {
            lemma_total_len_le(a.drop_last(), b.drop_last());
        } else {
            lemma_total_len_le(a, b.drop_last());
        }
    }
}

proof fn lemma_total_len_update_last(p: Seq<Seq<char>>, y: Seq<char>)
    requires
        p.len() > 0,
    ensures
        total_len(p.update(p.len() - 1, y)) == total_len(p.drop_last()) + y.len(),
{
    assert(p.update(p.len() - 1, y).drop_last() == p.drop_last());
}

proof fn lemma_split_total(t: Seq<char>, c: char)
    ensures
        total_len(split_char(t, c)) + split_char(t, c).len() == t.len() + 1,
    decreases t.len(),
{
    lemma_split_char_nonempty(t, c);
    if t.len() > 0 {
        let p = split_char(t.drop_last(), c);
        lemma_split_total(t.drop_last(), c);
        lemma_split_char_nonempty(t.drop_last(), c);
        if t.last() == c {
            assert(split_char(t, c) == p.push(seq![]));
            assert(p.push(seq![]).drop_last() == p);
        } else {
            assert(split_char(t, c) == p.update(p.len() - 1, p.last().push(t.last())));
            lemma_total_len_update_last(p, p.last().push(t.last()));
        }
    } else {
        assert(split_char(t, c) == seq![Seq::<char>::empty()]);
        assert(seq![Seq::<char>::empty()].drop_last() == Seq::<Seq<char>>::empty());
        assert(total_len(Seq::<Seq<char>>::empty()) == 0);
        assert(total_len(seq![Seq::<char>::empty()]) == 0);
    }
}

/// The lines of a text hold no more characters than the text.
pub proof fn lemma_lines_total(t: Seq<char>, m: int)
    requires
        0 <= m <= str_lines(t).len(),
    ensures
        total_len(str_lines(t).take(m)) <= t.len(),
{
    let ps = split_char(t, '\n');
    lemma_split_total(t, '\n');
    lemma_split_char_nonempty(t, '\n');
    let ls = str_lines(t).take(m);
    assert forall|k: int| 0 <= k < ls.len() implies ls[k].len() <= ps[k].len() by {
        assert(ls[k] == str_lines(t)[k]);
    }
    lemma_total_len_le(ls, ps);
}

pub(crate) fn is_fence_exec(line: &Vec<char>) -> (r: bool)
    ensures
        r == is_fence(line@),
{
    let i = trim_start_at(line, 0);
    let t = slice_of(line, i, line.len());
    proof {
        assert(line@.skip(0) == line@);
        assert(line@.subrange(i as int, line@.len() as int) == line@.skip(i as int));
        reveal_strlit("```");
        reveal_strlit("~~~");
        assert("```"@ == seq!['`', '`', '`']);
        assert("~~~"@ == seq!['~', '~', '~']);
    }
    starts_with_exec(&t, "```") || starts_with_exec(&t, "~~~")
}

pub(crate) fn leading_hashes_exec(t: &Vec<char>) -> (h: usize)
    ensures
        h == leading_hashes(t@),
        h <= t@.len(),
{
    let n = t.len();
    let mut i: usize = 0;
    proof {
        assert(t@.skip(0) == t@);
    }
    while i < n && t[i] == '#'
        invariant
            n == t@.len(),
            i <= n,
            leading_hashes(t@) == i + leading_hashes(t@.skip(i as int)),
        decreases n - i,
    {
        proof {
            assert(t@.skip(i as int).drop_first() == t@.skip(i + 1));
        }
        i = i + 1;
    }
    proof {
        if i < n {
            assert(t@.skip(i as int)[0] == t@[i as int]);
        }
    }
    i
}

/// The scan's state, held in columns.
struct ScanState {
    levels: Vec<usize>,
    titles: Vec<Vec<char>>,
    words: Vec<usize>,
    in_fence: bool,
    in_comment: bool,
}

impl ScanState {
    spec fn wf(&self) -> bool {
        self.levels@.len() == self.titles@.len() && self.titles@.len() == self.words@.len()
    }

    spec fn scan(&self) -> HeadingScan {
        (
            Seq::new(
                self.levels@.len(),
                |k: int| (self.levels@[k] as nat, self.titles@[k]@, self.words@[k] as nat),
            ),
            self.in_fence,
            self.in_comment,
        )
    }
}

fn scan_line(st: &mut ScanState, line: &Vec<char>)
    requires
        old(st).wf(),
        words_from(old(st).scan().0, 0) + line@.len() <= usize::MAX,
    ensures
        final(st).wf(),
        final(st).scan() == heading_step(old(st).scan(), line@),
        words_from(final(st).scan().0, 0) <= words_from(old(st).scan().0, 0) + line@.len(),
{
    let ghost own = old(st).scan().0;
    if !st.in_comment && is_fence_exec(line) {
        st.in_fence = !st.in_fence;
        proof {
            assert(st.scan().0 =~= own);
        }
        return;
    }
    let vis: (Vec<char>, bool) = if st.in_fence {
        proof {
            assert(line@.subrange(0, line@.len() as int) == line@);
        }
        (slice_of(line, 0, line.len()), st.in_comment)
    } else {
        strip_comments_exec(line, st.in_comment)
    };
    let ts = trim_start_at(&vis.0, 0);
    let t = slice_of(&vis.0, ts, vis.0.len());
    proof {
        assert(vis.0@.skip(0) == vis.0@);
        assert(vis.0@.subrange(ts as int, vis.0@.len() as int) == vis.0@.skip(ts as int));
    }
    let h = leading_hashes_exec(&t);
    if !st.in_fence && 1 <= h && h <= 6 && h < t.len() && t[h] == ' ' {
        let title = trim_chars(&slice_of(&t, h, t.len()));
        proof {
            assert(t@.subrange(h as int, t@.len() as int) == t@.skip(h as int));
        }
        let ghost x = (h as nat, title@, 0nat);
        st.levels.push(h);
        st.titles.push(title);
        st.words.push(0);
        proof {
            assert(st.scan().0 =~= own.push(x));
            lemma_words_from_push(own, x, 0);
        }
    } else if st.words.len() > 0 {
        let last = st.words.len() - 1;
        let wc = word_count_exec(&vis.0);
        proof {
            lemma_word_count_bound(vis.0@);
            lemma_words_from_mono(own, 0, last as int);
            assert(words_from(own, last as int) == own[last as int].2 + words_from(own, last + 1));
        }
        let nw = st.words[last] + wc;
        st.words[last] = nw;
        proof {
            let x = (own[last as int].0, own[last as int].1, nw as nat);
            assert(st.scan().0 =~= own.update(last as int, x));
            lemma_words_from_update(own, last as int, x, 0);
        }
    } else {
        proof {
            assert(st.scan().0 =~= own);
        }
    }
    st.in_comment = vis.1;
}

/// Parse the ATX headings of a body and the word count of each one's body.
///
/// A heading's body runs to the next heading at the same or a higher level,
/// so `## 1. Overview` counts the prose of its `### 1.1 Purpose`. HTML
/// comments are template guidance, not content: they are neither counted nor
/// searched for headings. A `#` line inside a fenced block is a shell
/// comment, not a heading.
pub fn headings(body: &str) -> (out: Vec<Heading>)
    ensures
        heading_views(out@) == headings_of(body@),
{
    let bv = chars_of(body);
    let bl = bv.len();
    let lines = lines_exec(body);
    let ghost ls = vec_views(lines@);
    let n = lines.len();
    let mut st = ScanState {
        levels: Vec::new(),
        titles: Vec::new(),
        words: Vec::new(),
        in_fence: false,
        in_comment: false,
    };
    proof {
        assert(ls.take(0) == Seq::<Seq<char>>::empty());
        assert(st.scan() == heading_scan(ls.take(0)));
        lemma_lines_total(body@, n as int);
        assert(ls.take(n as int) == ls);
    }
    for i in 0..n
        invariant
            n == ls.len(),
            ls == vec_views(lines@),
            ls == str_lines(body@),
            bv@ == body@,
            bl == bv@.len(),
            total_len(ls) <= bv@.len(),
            st.wf(),
            st.scan() == heading_scan(ls.take(i as int)),
            words_from(st.scan().0, 0) <= total_len(ls.take(i as int)),
    {
        proof {
            assert(ls.take(i + 1).drop_last() == ls.take(i as int));
            assert(ls.take(i + 1).last() == lines@[i as int]@);
            lemma_total_len_le(ls.take(i + 1), ls);
            assert(total_len(ls.take(i + 1)) == total_len(ls.take(i as int)) + lines@[i as int]@.len());
        }
        scan_line(&mut st, &lines[i]);
    }
    let ghost own = st.scan().0;
    proof {
        assert(ls.take(n as int) == ls);
        assert(own == heading_scan(str_lines(body@)).0);
    }
    let m = st.levels.len();
    let mut out: Vec<Heading> = Vec::new();
    for i in 0..m
        invariant
            m == own.len(),
            st.wf(),
            own == st.scan().0,
            words_from(own, 0) <= usize::MAX,
            heading_views(out@) == headings_of(body@).take(i as int),
            own == heading_scan(str_lines(body@)).0,
    {
        let level = st.levels[i];
        let mut sum: usize = st.words[i];
        let mut j = i + 1;
        proof {
            lemma_words_from_mono(own, 0, i as int);
            assert(words_from(own, i as int) == own[i as int].2 + words_from(own, i + 1));
        }
        while j < m && st.levels[j] > level
            invariant
                m == own.len(),
                st.wf(),
                own == st.scan().0,
                i < j <= m,
                level == own[i as int].0,
                sum + words_from(own, j as int) <= words_from(own, i as int),
                words_from(own, i as int) <= usize::MAX,
                sum + nested_words(own, i as int, j as int) == own[i as int].2 + nested_words(own, i as int, i + 1),
            decreases m - j,
        {
            proof {
                assert(words_from(own, j as int) == own[j as int].2 + words_from(own, j + 1));
            }
            sum = sum + st.words[j];
            j = j + 1;
        }
        proof {
            if j < m {
                assert(nested_words(own, i as int, j as int) == 0);
            } else {
                assert(nested_words(own, i as int, j as int) == 0);
            }
        }
        let title = normalize_heading_exec(&st.titles[i]);
        let h = Heading { level, title_norm: string_of(&title), body_words: sum };
        let ghost before = heading_views(out@);
        out.push(h);
        proof {
            assert(heading_views(out@) =~= before.push((level as nat, title@, sum as nat)));
            assert(headings_of(body@).take(i + 1) =~= headings_of(body@).take(i as int).push(headings_of(body@)[i as int]));
        }
    }
    proof {
        assert(headings_of(body@).take(m as int) =~= headings_of(body@));
    }
    out
}

/// The characters of a line outside inline code spans: a backtick opens or
/// closes a span and is itself dropped. `in_span` says whether one is open.
pub open spec fn unspan(s: Seq<char>, in_span: bool) -> Seq<char>
    decreases s.len(),
{
    if s.len() == 0 {
        seq![]
    } else if s[0] == '`' {
        unspan(s.drop_first(), !in_span)
    } else if in_span {
        unspan(s.drop_first(), in_span)
    } else {
        seq![s[0]] + unspan(s.drop_first(), in_span)
    }
}

/// One line of the prose scan: fences toggle and are dropped, fenced lines
/// are dropped, comments are cut away, and inline spans go with them.
pub open spec fn prose_step(st: (Seq<char>, bool, bool), raw: Seq<char>) -> (Seq<char>, bool, bool) {
    if !st.2 && is_fence(raw) {
        (st.0, !st.1, st.2)
    } else if st.1 {
        st
    } else {
        let r = strip_comments(raw, st.2);
        (st.0 + unspan(r.0, false) + seq!['\n'], st.1, r.1)
    }
}

pub open spec fn prose_scan(lines: Seq<Seq<char>>) -> (Seq<char>, bool, bool)
    decreases lines.len(),
{
    if lines.len() == 0 {
        (seq![], false, false)
    } else {
        prose_step(prose_scan(lines.drop_last()), lines.last())
    }
}

/// The document with its code removed (fenced blocks and inline spans) and
/// its HTML comments, each kept line ended by a line break.
pub open spec fn prose_of(content: Seq<char>) -> Seq<char> {
    prose_scan(str_lines(content)).0
}

fn unspan_push(out: &mut Vec<char>, line: &Vec<char>)
    ensures
        final(out)@ == old(out)@ + unspan(line@, false),
{
    let n = line.len();
    let mut in_span = false;
    let ghost start = out@;
    proof {
        assert(line@.skip(0) == line@);
    }
    for i in 0..n
        invariant
            n == line@.len(),
            start + unspan(line@, false) == out@ + unspan(line@.skip(i as int), in_span),
    {
        let ch = line[i];
        proof {
            assert(line@.skip(i as int)[0] == ch);
            assert(line@.skip(i as int).drop_first() == line@.skip(i + 1));
        }
        if ch == '`' {
            in_span = !in_span;
        } else if !in_span {
            let ghost o = out@;
            out.push(ch);
            proof {
                assert(o + (seq![ch] + unspan(line@.skip(i + 1), in_span)) == out@ + unspan(line@.skip(i + 1), in_span));
            }
        }
    }
    proof {
        assert(line@.skip(n as int) == Seq::<char>::empty());
        assert(out@ + Seq::<char>::empty() == out@);
    }
}

/// The document with its code removed — fenced blocks and inline spans —
/// and its HTML comments. Only the placeholder scan reads this: a document
/// written against a template leaves its markers in the prose, while a
/// document about software quotes bracketed tokens in code.
pub fn strip_code(content: &str) -> (out: String)
    ensures
        out@ == prose_of(content@),
{
    let lines = lines_exec(content);
    let ghost ls = vec_views(lines@);
    let n = lines.len();
    let mut out: Vec<char> = Vec::new();
    let mut in_fence = false;
    let mut in_comment = false;
    proof {
        assert(ls.take(0) == Seq::<Seq<char>>::empty());
    }
    for i in 0..n
        invariant
            n == ls.len(),
            ls == vec_views(lines@),
            (out@, in_fence, in_comment) == prose_scan(ls.take(i as int)),
    {
        proof {
            assert(ls.take(i + 1).drop_last() == ls.take(i as int));
            assert(ls.take(i + 1).last() == lines@[i as int]@);
        }
        let raw = &lines[i];
        if !in_comment && is_fence_exec(raw) {
            in_fence = !in_fence;
        } else if !in_fence {
            let r = strip_comments_exec(raw, in_comment);
            unspan_push(&mut out, &r.0);
            out.push('\n');
            in_comment = r.1;
        }
    }
    proof {
        assert(ls.take(n as int) == ls);
    }
    string_of(&out)
}

/// Lower-case letters, spaces and hyphens, with at least one letter, and at
/// most forty of them: the inside of a `<title>`-style placeholder.
pub open spec fn angle_inner_ok(inner: Seq<char>) -> bool {
    &&& inner.len() > 0
    &&& inner.len() <= 40
    &&& forall|k: int| 0 <= k < inner.len() ==> is_lower(#[trigger] inner[k]) || inner[k] == ' ' || inner[k] == '-'
    &&& exists|k: int| 0 <= k < inner.len() && is_lower(#[trigger] inner[k])
}

/// Is there a `<title>`-style placeholder at or after `i`? At each `<`, the
/// text up to the next `>` is tried; where it is no placeholder the scan goes
/// on from that `>`.
pub open spec fn angle_placeholder_from(s: Seq<char>, i: int) -> bool
    decreases s.len() - i,
{
    if i < 0 || i >= s.len() {
        false
    } else if s[i] == '<' {
        match find(s.skip(i + 1), seq!['>']) {
            Some(close) => {
                proof {
                    lemma_find_from_occurs(s.skip(i + 1), seq!['>'], 0);
                }
                if angle_inner_ok(s.subrange(i + 1, i + 1 + close)) {
                    true
                } else {
                    angle_placeholder_from(s, i + 1 + close)
                }
            },
            None => angle_placeholder_from(s, i + 1),
        }
    } else {
        angle_placeholder_from(s, i + 1)
    }
}

fn angle_inner_ok_exec(inner: &Vec<char>) -> (r: bool)
    ensures
        r == angle_inner_ok(inner@),
{
    let n = inner.len();
    if n == 0 || n > 40 {
        return false;
    }
    let mut any_lower = false;
    for k in 0..n
        invariant
            n == inner@.len(),
            forall|j: int| 0 <= j < k ==> is_lower(#[trigger] inner@[j]) || inner@[j] == ' ' || inner@[j] == '-',
            any_lower <==> exists|j: int| 0 <= j < k && is_lower(#[trigger] inner@[j]),
    {
        let c = inner[k];
        let low = 'a' <= c && c <= 'z';
        if !(low || c == ' ' || c == '-') {
            return false;
        }
        if low {
            any_lower = true;
        }
    }
    any_lower
}

/// Detect `<title>`-style human placeholders (angle-wrapped lower-case
/// words), while passing over real tags and generics (`</x>`, `<T>`).
pub fn has_angle_placeholder(content: &str) -> (r: bool)
    ensures
        r == angle_placeholder_from(content@, 0),
{
    let v = chars_of(content);
    let n = v.len();
    let gt: Vec<char> = vec!['>'];
    assert(gt@ == seq!['>']);
    let mut i: usize = 0;
    while i < n
        invariant
            n == v@.len(),
            v@ == content@,
            gt@ == seq!['>'],
            i <= n,
            angle_placeholder_from(v@, 0) == angle_placeholder_from(v@, i as int),
        decreases n - i,
    {
        if v[i] == '<' {
            let after = slice_of(&v, i + 1, n);
            proof {
                assert(v@.subrange(i + 1, n as int) == v@.skip(i + 1));
            }
            match find_exec(&after, &gt) {
                Some(close) => {
                    let inner = slice_of(&v, i + 1, i + 1 + close);
                    if angle_inner_ok_exec(&inner) {
                        return true;
                    }
                    i = i + 1 + close;
                },
                None => {
                    i = i + 1;
                },
            }
        } else {
            i = i + 1;
        }
    }
    false
}

/// The first `{` or `}` at or after `i`.
pub open spec fn first_brace(s: Seq<char>, i: int) -> Option<int>
    decreases s.len() - i,
{
    if i < 0 || i >= s.len() {
        None
    } else if s[i] == '{' || s[i] == '}' {
        Some(i)
    } else {
        first_brace(s, i + 1)
    }
}

pub proof fn lemma_first_brace_bounds(s: Seq<char>, i: int)
    ensures
        first_brace(s, i) matches Some(r) ==> i <= r < s.len() && (s[r] == '{' || s[r] == '}'),
    decreases s.len() - i,
{
    if 0 <= i < s.len() && !(s[i] == '{' || s[i] == '}') {
        lemma_first_brace_bounds(s, i + 1);
    }
}

pub proof fn lemma_trim_start_char_len(s: Seq<char>, c: char)
    ensures
        trim_start_char(s, c).len() <= s.len(),
    decreases s.len(),
{
    if s.len() > 0 && s[0] == c {
        lemma_trim_start_char_len(s.drop_first(), c);
    }
}

/// The inside of a `{Gear Name}`-style placeholder: closed by `}`, at most
/// two hundred bytes, starting with a letter or digit and holding a letter.
pub open spec fn brace_inner_ok(after: Seq<char>, close: int) -> bool {
    let inner = after.take(close);
    &&& after[close] == '}'
    &&& byte_len(inner) <= 200
    &&& inner.len() > 0
    &&& alphanumeric(inner[0])
    &&& exists|k: int| 0 <= k < inner.len() && alphabetic(#[trigger] inner[k])
}

/// Is there a `{Gear Name}`-style placeholder in what is left of a line? At
/// each `{`: a run of `{` is skipped (`{{…}}` is reported on its own); else
/// the text up to the next brace is tried, and the scan goes on from that
/// brace.
pub open spec fn brace_placeholder_in(rest: Seq<char>) -> bool
    decreases rest.len(),
{
    match find(rest, seq!['{']) {
        None => false,
        Some(open) => {
            proof {
                lemma_find_from_occurs(rest, seq!['{'], 0);
            }
            let after = rest.skip(open + 1);
            if after.len() > 0 && after[0] == '{' {
                proof {
                    lemma_trim_start_char_len(after, '{');
                }
                brace_placeholder_in(trim_start_char(after, '{'))
            } else {
                match first_brace(after, 0) {
                    None => false,
                    Some(close) => {
                        proof {
                            lemma_first_brace_bounds(after, 0);
                        }
                        if brace_inner_ok(after, close) {
                            true
                        } else {
                            brace_placeholder_in(after.skip(close))
                        }
                    },
                }
            }
        },
    }
}

fn first_brace_exec(s: &Vec<char>) -> (r: Option<usize>)
    ensures
        match r {
            Some(i) => first_brace(s@, 0) == Some(i as int),
            None => first_brace(s@, 0) is None,
        },
{
    let n = s.len();
    let mut i: usize = 0;
    while i < n
        invariant
            n == s@.len(),
            i <= n,
            first_brace(s@, 0) == first_brace(s@, i as int),
        decreases n - i,
    {
        if s[i] == '{' || s[i] == '}' {
            return Some(i);
        }
        i = i + 1;
    }
    None
}

fn brace_inner_ok_exec(after: &Vec<char>, close: usize) -> (r: bool)
    requires
        close < after@.len(),
    ensures
        r == brace_inner_ok(after@, close as int),
{
    let inner = slice_of(after, 0, close);
    proof {
        assert(after@.subrange(0, close as int) == after@.take(close as int));
    }
    if after[close] != '}' || byte_len_sat(&inner) > 200 || inner.len() == 0 || !is_alphanumeric(inner[0]) {
        return false;
    }
    let n = inner.len();
    for k in 0..n
        invariant
            n == inner@.len(),
            close < after@.len(),
            inner@ == after@.take(close as int),
            after@[close as int] == '}',
            byte_len(inner@) <= 200,
            inner@.len() > 0,
            alphanumeric(inner@[0]),
            forall|j: int| 0 <= j < k ==> !alphabetic(#[trigger] inner@[j]),
    {
        if is_alphabetic(inner[k]) {
            assert(alphabetic(inner@[k as int]));
            return true;
        }
    }
    false
}

fn brace_placeholder_in_exec(line: &Vec<char>) -> (r: bool)
    ensures
        r == brace_placeholder_in(line@),
{
    let brace: Vec<char> = vec!['{'];
    assert(brace@ == seq!['{']);
    let mut rest = slice_of(line, 0, line.len());
    assert(line@.subrange(0, line@.len() as int) == line@);
    loop
        invariant
            brace@ == seq!['{'],
            brace_placeholder_in(line@) == brace_placeholder_in(rest@),
        decreases rest@.len(),
    {
        let n = rest.len();
        match find_exec(&rest, &brace) {
            None => {
                return false;
            },
            Some(open) => {
                proof {
                    lemma_find_from_occurs(rest@, seq!['{'], 0);
                    assert(rest@.subrange(open + 1, n as int) == rest@.skip(open + 1));
                }
                let after = slice_of(&rest, open + 1, n);
                if after.len() > 0 && after[0] == '{' {
                    proof {
                        lemma_trim_start_char_len(after@, '{');
                    }
                    rest = trim_start_char_exec(&after, '{');
                } else {
                    match first_brace_exec(&after) {
                        None => {
                            return false;
                        },
                        Some(close) => {
                            proof {
                                lemma_first_brace_bounds(after@, 0);
                            }
                            if brace_inner_ok_exec(&after, close) {
                                return true;
                            }
                            proof {
                                assert(after@.subrange(close as int, after@.len() as int) == after@.skip(close as int));
                            }
                            rest = slice_of(&after, close, after.len());
                        },
                    }
                }
            },
        }
    }
}

/// Is there a `{Gear Name}`-style placeholder on some line?
pub open spec fn brace_placeholder(content: Seq<char>) -> bool {
    exists|k: int| 0 <= k < str_lines(content).len() && brace_placeholder_in(#[trigger] str_lines(content)[k])
}

/// Detect `{Gear Name}`-style placeholders — the templates' marker for
/// "write this": a single brace pair on one line whose contents start with a
/// letter or digit. `{{…}}` is reported on its own, and JSON (`{"a": 1}`)
/// starts with a quote.
pub fn has_brace_placeholder(content: &str) -> (r: bool)
    ensures
        r == brace_placeholder(content@),
{
    let lines = lines_exec(content);
    let ghost ls = vec_views(lines@);
    let n = lines.len();
    for k in 0..n
        invariant
            n == ls.len(),
            ls == vec_views(lines@),
            ls == str_lines(content@),
            forall|j: int| 0 <= j < k ==> !brace_placeholder_in(#[trigger] ls[j]),
    {
        proof {
            assert(ls[k as int] == lines@[k as int]@);
        }
        if brace_placeholder_in_exec(&lines[k]) {
            return true;
        }
    }
    false
}

/// The headings a section is looked for by, normalized.
pub open spec fn wanted_of(s: Section) -> Seq<Seq<char>> {
    section_titles(s).map_values(|t: Seq<char>| normalize_heading(t))
}

/// The first heading at or after `i` whose title is one of `wanted`.
pub open spec fn find_heading(heads: Seq<(nat, Seq<char>, nat)>, wanted: Seq<Seq<char>>, i: int) -> Option<int>
    decreases heads.len() - i,
{
    if i < 0 || i >= heads.len() {
        None
    } else if wanted.contains(heads[i].1) {
        Some(i)
    } else {
        find_heading(heads, wanted, i + 1)
    }
}

/// Whether a section is there, and the words of its body.
pub open spec fn section_found(heads: Seq<(nat, Seq<char>, nat)>, s: Section) -> (bool, nat) {
    match find_heading(heads, wanted_of(s), 0) {
        Some(k) => (true, heads[k].2),
        None => (false, 0),
    }
}

pub open spec fn meets_min(s: Section, words: nat) -> bool {
    match s.min_words {
        Some(m) => words >= m,
        None => true,
    }
}

/// A section passes when, required, it is present, not empty and long
/// enough; optional, when it is absent, empty (not filled in) or long
/// enough. Something written and too short fails either way.
pub open spec fn section_passes(s: Section, present: bool, words: nat) -> bool {
    if s.required {
        present && words > 0 && meets_min(s, words)
    } else {
        !present || words == 0 || meets_min(s, words)
    }
}

pub open spec fn section_issue(s: Section, present: bool, words: nat) -> Option<Seq<char>> {
    if section_passes(s, present, words) {
        None
    } else if !present {
        Some("Missing required section: "@ + s.title@)
    } else if words == 0 {
        Some("Section is empty: "@ + s.title@)
    } else if !meets_min(s, words) {
        let need: nat = match s.min_words {
            Some(m) => m as nat,
            None => 0,
        };
        Some(
            "Section \""@ + s.title@ + "\" is too short ("@ + decimal(words) + " words, need "@ + decimal(need)
                + ")"@,
        )
    } else {
        None
    }
}

/// key, title, present, word count, required, ok.
pub type StatusView = (Seq<char>, Seq<char>, bool, nat, bool, bool);

pub open spec fn status_view(st: SectionStatus) -> StatusView {
    (st.key@, st.title@, st.present, st.word_count as nat, st.required, st.ok)
}

/// The checklist entry of a section: `ok` when it is filled in — present,
/// not empty and long enough.
pub open spec fn section_status_of(heads: Seq<(nat, Seq<char>, nat)>, s: Section) -> StatusView {
    let f = section_found(heads, s);
    (s.key@, s.title@, f.0, f.1, s.required, section_passes(s, f.0, f.1) && f.0 && f.1 > 0)
}

pub open spec fn opt_seq(o: Option<Seq<char>>) -> Seq<Seq<char>> {
    match o {
        Some(x) => seq![x],
        None => seq![],
    }
}

pub open spec fn section_issues(heads: Seq<(nat, Seq<char>, nat)>, secs: Seq<Section>) -> Seq<Seq<char>>
    decreases secs.len(),
{
    if secs.len() == 0 {
        seq![]
    } else {
        let s = secs.last();
        let f = section_found(heads, s);
        section_issues(heads, secs.drop_last()) + opt_seq(section_issue(s, f.0, f.1))
    }
}

pub open spec fn all_sections_pass(heads: Seq<(nat, Seq<char>, nat)>, secs: Seq<Section>) -> bool {
    forall|i: int| 0 <= i < secs.len() ==> section_passes(#[trigger] secs[i], section_found(heads, secs[i]).0, section_found(heads, secs[i]).1)
}

/// A required front-matter key is filled when the block gives it a value
/// that is not blank.
pub open spec fn fm_filled(entries: Seq<(Seq<char>, Seq<char>)>, key: Seq<char>) -> bool {
    match fm_get(entries, normalize(key)) {
        Some(v) => trim(v).len() > 0,
        None => false,
    }
}

pub open spec fn fm_issues(entries: Seq<(Seq<char>, Seq<char>)>, keys: Seq<String>) -> Seq<Seq<char>>
    decreases keys.len(),
{
    if keys.len() == 0 {
        seq![]
    } else {
        fm_issues(entries, keys.drop_last()) + if fm_filled(entries, keys.last()@) {
            Seq::<Seq<char>>::empty()
        } else {
            seq!["Front-matter field \""@ + keys.last()@ + "\" is missing or empty"@]
        }
    }
}

/// The first level-one heading's title at or after `i`.
pub open spec fn first_title_from(heads: Seq<(nat, Seq<char>, nat)>, i: int) -> Option<Seq<char>>
    decreases heads.len() - i,
{
    if i < 0 || i >= heads.len() {
        None
    } else if heads[i].0 == 1 {
        Some(heads[i].1)
    } else {
        first_title_from(heads, i + 1)
    }
}

/// The document's title: the front matter's `title` where it is not empty,
/// else the first level-one heading.
pub open spec fn doc_title(entries: Seq<(Seq<char>, Seq<char>)>, heads: Seq<(nat, Seq<char>, nat)>) -> Option<Seq<char>> {
    match fm_get(entries, "title"@) {
        Some(t) => if t.len() > 0 {
            Some(t)
        } else {
            first_title_from(heads, 0)
        },
        None => first_title_from(heads, 0),
    }
}

pub open spec fn title_words(entries: Seq<(Seq<char>, Seq<char>)>, heads: Seq<(nat, Seq<char>, nat)>) -> nat {
    match doc_title(entries, heads) {
        Some(t) => word_count(t),
        None => 0,
    }
}

pub open spec fn title_issues(words: nat, min: nat) -> Seq<Seq<char>> {
    if words < min {
        seq!["Title has "@ + decimal(words) + " word(s), need at least "@ + decimal(min)]
    } else {
        seq![]
    }
}

/// The literal markers a template leaves behind.
pub open spec fn markers() -> Seq<Seq<char>> {
    seq![seq!['{', '{'], seq!['T', 'O', 'D', 'O'], seq!['T', 'B', 'D']]
}

pub open spec fn marker_issues(prose: Seq<char>, ms: Seq<Seq<char>>) -> Seq<Seq<char>>
    decreases ms.len(),
{
    if ms.len() == 0 {
        seq![]
    } else {
        marker_issues(prose, ms.drop_last()) + if contains(prose, ms.last()) {
            seq!["Leftover placeholder: "@ + ms.last()]
        } else {
            Seq::<Seq<char>>::empty()
        }
    }
}

/// The placeholders left in the prose, each reported once: the literal
/// markers, then a `<…>` marker, then a `{…}` marker.
pub open spec fn placeholder_issues(content: Seq<char>) -> Seq<Seq<char>> {
    let prose = prose_of(content);
    marker_issues(prose, markers()) + (if angle_placeholder_from(prose, 0) {
        seq!["Leftover placeholder: <…> template marker"@]
    } else {
        Seq::<Seq<char>>::empty()
    }) + (if brace_placeholder(prose) {
        seq!["Leftover placeholder: {…} template marker"@]
    } else {
        Seq::<Seq<char>>::empty()
    })
}


/// Everything the check finds wrong with a document, in the order it looks:
/// sections, front-matter keys, the title, then placeholders.
pub open spec fn validation_issues(content: Seq<char>, spec: TemplateSpec) -> Seq<Seq<char>> {
    let fs = front_matter_split(content);
    let heads = headings_of(fs.1);
    section_issues(heads, spec.sections@) + fm_issues(fs.0, spec.rules.front_matter@) + title_issues(
        title_words(fs.0, heads),
        spec.rules.min_title_words as nat,
    ) + if spec.rules.forbid_placeholders {
        placeholder_issues(content)
    } else {
        Seq::<Seq<char>>::empty()
    }
}

/// A document conforms when every section passes, every required
/// front-matter key is filled, the title is long enough and, where the
/// template forbids them, no placeholder is left in its prose.
pub open spec fn conforms_to(content: Seq<char>, spec: TemplateSpec) -> bool {
    let fs = front_matter_split(content);
    let heads = headings_of(fs.1);
    &&& all_sections_pass(heads, spec.sections@)
    &&& forall|i: int| 0 <= i < spec.rules.front_matter@.len() ==> fm_filled(fs.0, #[trigger] spec.rules.front_matter@[i]@)
    &&& title_words(fs.0, heads) >= spec.rules.min_title_words
    &&& spec.rules.forbid_placeholders ==> placeholder_issues(content).len() == 0
}

proof fn lemma_section_issue_iff(s: Section, present: bool, words: nat)
    ensures
        section_issue(s, present, words) is Some <==> !section_passes(s, present, words),
{
}

proof fn lemma_section_issues_empty(heads: Seq<(nat, Seq<char>, nat)>, secs: Seq<Section>)
    ensures
        section_issues(heads, secs).len() == 0 <==> all_sections_pass(heads, secs),
    decreases secs.len(),
{
    if secs.len() > 0 {
        lemma_section_issues_empty(heads, secs.drop_last());
        let s = secs.last();
        let f = section_found(heads, s);
        lemma_section_issue_iff(s, f.0, f.1);
        if all_sections_pass(heads, secs) {
            assert forall|i: int| 0 <= i < secs.drop_last().len() implies section_passes(
                #[trigger] secs.drop_last()[i],
                section_found(heads, secs.drop_last()[i]).0,
                section_found(heads, secs.drop_last()[i]).1,
            ) by {
                assert(secs.drop_last()[i] == secs[i]);
            }
            assert(section_passes(secs[secs.len() - 1], section_found(heads, secs[secs.len() - 1]).0, section_found(heads, secs[secs.len() - 1]).1));
        }
        if section_issues(heads, secs).len() == 0 {
            assert forall|i: int| 0 <= i < secs.len() implies section_passes(
                #[trigger] secs[i],
                section_found(heads, secs[i]).0,
                section_found(heads, secs[i]).1,
            ) by {
                if i < secs.len() - 1 {
                    assert(secs.drop_last()[i] == secs[i]);
                }
            }
        }
    }
}

proof fn lemma_fm_issues_empty(entries: Seq<(Seq<char>, Seq<char>)>, keys: Seq<String>)
    ensures
        fm_issues(entries, keys).len() == 0 <==> forall|i: int| 0 <= i < keys.len() ==> fm_filled(entries, #[trigger] keys[i]@),
    decreases keys.len(),
{
    if keys.len() > 0 {
        lemma_fm_issues_empty(entries, keys.drop_last());
        if fm_issues(entries, keys).len() == 0 {
            assert forall|i: int| 0 <= i < keys.len() implies fm_filled(entries, #[trigger] keys[i]@) by {
                if i < keys.len() - 1 {
                    assert(keys.drop_last()[i] == keys[i]);
                }
            }
        }
        if forall|i: int| 0 <= i < keys.len() ==> fm_filled(entries, #[trigger] keys[i]@) {
            assert forall|i: int| 0 <= i < keys.drop_last().len() implies fm_filled(entries, #[trigger] keys.drop_last()[i]@) by {
                assert(keys.drop_last()[i] == keys[i]);
            }
            assert(fm_filled(entries, keys[keys.len() - 1]@));
        }
    }
}

fn heading_matches(title: &Vec<char>, wanted: &Vec<Vec<char>>) -> (r: bool)
    ensures
        r == vec_views(wanted@).contains(title@),
{
    let n = wanted.len();
    for j in 0..n
        invariant
            n == wanted@.len(),
            forall|k: int| 0 <= k < j ==> vec_views(wanted@)[k] != title@,
    {
        if seq_eq(title, &wanted[j]) {
            assert(vec_views(wanted@)[j as int] == title@);
            return true;
        }
    }
    false
}

fn find_heading_exec(heads: &Vec<Heading>, wanted: &Vec<Vec<char>>) -> (r: Option<usize>)
    ensures
        match r {
            Some(k) => find_heading(heading_views(heads@), vec_views(wanted@), 0) == Some(k as int) && k < heads@.len(),
            None => find_heading(heading_views(heads@), vec_views(wanted@), 0) is None,
        },
{
    let ghost hv = heading_views(heads@);
    let n = heads.len();
    let mut i: usize = 0;
    while i < n
        invariant
            n == heads@.len(),
            hv == heading_views(heads@),
            i <= n,
            find_heading(hv, vec_views(wanted@), 0) == find_heading(hv, vec_views(wanted@), i as int),
        decreases n - i,
    {
        let t = chars_of(heads[i].title_norm.as_str());
        proof {
            assert(hv[i as int].1 == t@);
        }
        if heading_matches(&t, wanted) {
            return Some(i);
        }
        i = i + 1;
    }
    None
}

fn push_decimal(out: &mut Vec<char>, n: usize)
    ensures
        final(out)@ == old(out)@ + decimal(n as nat),
{
    let d = decimal_of(n as u64);
    push_all(out, &d);
}

/// One section's checklist entry, its issue if it fails, and whether it
/// passes.
fn section_report(heads: &Vec<Heading>, s: &Section) -> (out: (SectionStatus, Option<String>, bool))
    ensures
        status_view(out.0) == section_status_of(heading_views(heads@), *s),
        opt_view(out.1) == section_issue(*s, section_found(heading_views(heads@), *s).0, section_found(heading_views(heads@), *s).1),
        out.2 == section_passes(*s, section_found(heading_views(heads@), *s).0, section_found(heading_views(heads@), *s).1),
{
    let ghost hv = heading_views(heads@);
    let titles = s.titles();
    let nt = titles.len();
    let mut wanted: Vec<Vec<char>> = Vec::new();
    for j in 0..nt
        invariant
            nt == titles@.len(),
            titles@.map_values(|t: String| t@) == section_titles(*s),
            vec_views(wanted@) == wanted_of(*s).take(j as int),
    {
        let w = normalize_heading_exec(&chars_of(titles[j].as_str()));
        proof {
            assert(titles@.map_values(|t: String| t@)[j as int] == titles@[j as int]@);
        }
        let ghost before = vec_views(wanted@);
        wanted.push(w);
        proof {
            assert(vec_views(wanted@) =~= before.push(w@));
            assert(wanted_of(*s).take(j + 1) =~= wanted_of(*s).take(j as int).push(wanted_of(*s)[j as int]));
        }
    }
    proof {
        assert(wanted_of(*s).take(nt as int) =~= wanted_of(*s));
    }
    let found = find_heading_exec(heads, &wanted);
    let (present, words): (bool, usize) = match found {
        Some(k) => (true, heads[k].body_words),
        None => (false, 0),
    };
    proof {
        assert(section_found(hv, *s) == (present, words as nat));
    }
    let meets = match s.min_words {
        Some(m) => words >= m,
        None => true,
    };
    let ok = if s.required {
        present && words > 0 && meets
    } else {
        !present || words == 0 || meets
    };
    let issue: Option<String> = if ok {
        None
    } else if !present {
        let mut t: Vec<char> = Vec::new();
        push_str(&mut t, "Missing required section: ");
        push_str(&mut t, s.title.as_str());
        Some(string_of(&t))
    } else if words == 0 {
        let mut t: Vec<char> = Vec::new();
        push_str(&mut t, "Section is empty: ");
        push_str(&mut t, s.title.as_str());
        Some(string_of(&t))
    } else if !meets {
        let need: usize = match s.min_words {
            Some(m) => m,
            None => 0,
        };
        let mut t: Vec<char> = Vec::new();
        push_str(&mut t, "Section \"");
        push_str(&mut t, s.title.as_str());
        push_str(&mut t, "\" is too short (");
        push_decimal(&mut t, words);
        push_str(&mut t, " words, need ");
        push_decimal(&mut t, need);
        push_str(&mut t, ")");
        Some(string_of(&t))
    } else {
        None
    };
    let status = SectionStatus {
        key: s.key.clone(),
        title: s.title.clone(),
        present,
        word_count: words,
        required: s.required,
        ok: ok && present && words > 0,
    };
    (status, issue, ok)
}

fn fm_get_exec(fm: &Vec<(String, String)>, key: &Vec<char>) -> (r: Option<String>)
    ensures
        opt_view(r) == fm_get(pair_views(fm@), key@),
{
    let ghost pv = pair_views(fm@);
    let mut i = fm.len();
    proof {
        assert(pv.take(i as int) == pv);
    }
    while i > 0
        invariant
            i <= fm@.len(),
            pv == pair_views(fm@),
            fm_get(pv, key@) == fm_get(pv.take(i as int), key@),
        decreases i,
    {
        i = i - 1;
        proof {
            assert(pv.take(i + 1).drop_last() == pv.take(i as int));
            assert(pv.take(i + 1).last() == (fm@[i as int].0@, fm@[i as int].1@));
        }
        if seq_eq(&chars_of(fm[i].0.as_str()), key) {
            return Some(fm[i].1.clone());
        }
    }
    None
}

/// The issues of the required front-matter keys, and whether all are filled.
fn fm_report(fm: &Vec<(String, String)>, keys: &Vec<String>) -> (out: (Vec<String>, bool))
    ensures
        string_views(out.0@) == fm_issues(pair_views(fm@), keys@),
        out.1 == forall|i: int| 0 <= i < keys@.len() ==> fm_filled(pair_views(fm@), #[trigger] keys@[i]@),
{
    let ghost pv = pair_views(fm@);
    let n = keys.len();
    let mut issues: Vec<String> = Vec::new();
    proof {
        assert(keys@.take(0) == Seq::<String>::empty());
    }
    for i in 0..n
        invariant
            n == keys@.len(),
            pv == pair_views(fm@),
            string_views(issues@) == fm_issues(pv, keys@.take(i as int)),
    {
        let k = normalize_exec(&chars_of(keys[i].as_str()));
        let filled = match fm_get_exec(fm, &k) {
            Some(v) => trim_chars(&chars_of(v.as_str())).len() > 0,
            None => false,
        };
        proof {
            assert(keys@.take(i + 1).drop_last() == keys@.take(i as int));
            assert(keys@.take(i + 1).last() == keys@[i as int]);
        }
        if !filled {
            let mut t: Vec<char> = Vec::new();
            push_str(&mut t, "Front-matter field \"");
            push_str(&mut t, keys[i].as_str());
            push_str(&mut t, "\" is missing or empty");
            let ghost before = string_views(issues@);
            issues.push(string_of(&t));
            proof {
                assert(string_views(issues@) =~= before.push(t@));
            }
        }
    }
    proof {
        assert(keys@.take(n as int) == keys@);
        lemma_fm_issues_empty(pv, keys@);
    }
    let all = issues.len() == 0;
    (issues, all)
}

fn first_title_exec(heads: &Vec<Heading>) -> (r: Option<String>)
    ensures
        opt_view(r) == first_title_from(heading_views(heads@), 0),
{
    let ghost hv = heading_views(heads@);
    let n = heads.len();
    let mut i: usize = 0;
    while i < n
        invariant
            n == heads@.len(),
            hv == heading_views(heads@),
            i <= n,
            first_title_from(hv, 0) == first_title_from(hv, i as int),
        decreases n - i,
    {
        if heads[i].level == 1 {
            return Some(heads[i].title_norm.clone());
        }
        i = i + 1;
    }
    None
}

/// The number of words in the document's title.
fn title_word_count(fm: &Vec<(String, String)>, heads: &Vec<Heading>) -> (n: usize)
    ensures
        n == title_words(pair_views(fm@), heading_views(heads@)),
{
    let key: Vec<char> = vec!['t', 'i', 't', 'l', 'e'];
    proof {
        reveal_strlit("title");
        assert(key@ == "title"@);
    }
    let title = match fm_get_exec(fm, &key) {
        Some(t) => if !t.as_str().is_empty() {
            Some(t)
        } else {
            first_title_exec(heads)
        },
        None => first_title_exec(heads),
    };
    match title {
        Some(t) => word_count_exec(&chars_of(t.as_str())),
        None => 0,
    }
}

fn marker_check(prose: &Vec<char>, m: &Vec<char>, issues: &mut Vec<String>)
    ensures
        string_views(final(issues)@) == string_views(old(issues)@) + if contains(prose@, m@) {
            seq!["Leftover placeholder: "@ + m@]
        } else {
            Seq::<Seq<char>>::empty()
        },
{
    if contains_exec(prose, m) {
        let mut t: Vec<char> = Vec::new();
        push_str(&mut t, "Leftover placeholder: ");
        push_all(&mut t, m);
        let ghost before = string_views(issues@);
        issues.push(string_of(&t));
        proof {
            assert(string_views(issues@) =~= before + seq![t@]);
        }
    } else {
        proof {
            assert(string_views(issues@) =~= string_views(issues@) + Seq::<Seq<char>>::empty());
        }
    }
}

/// The placeholders left in the document's prose.
fn placeholder_report(content: &str) -> (out: Vec<String>)
    ensures
        string_views(out@) == placeholder_issues(content@),
{
    let prose_s = strip_code(content);
    let prose = chars_of(prose_s.as_str());
    let mut issues: Vec<String> = Vec::new();
    let m0: Vec<char> = vec!['{', '{'];
    let m1: Vec<char> = vec!['T', 'O', 'D', 'O'];
    let m2: Vec<char> = vec!['T', 'B', 'D'];
    proof {
        assert(m0@ == markers()[0]);
        assert(m1@ == markers()[1]);
        assert(m2@ == markers()[2]);
        let ms = markers();
        assert(ms.drop_last().drop_last().drop_last() == Seq::<Seq<char>>::empty());
        assert(ms.drop_last().drop_last().last() == m0@);
        assert(ms.drop_last().last() == m1@);
        assert(ms.last() == m2@);
        assert(string_views(issues@) == Seq::<Seq<char>>::empty());
    }
    let ghost ms = markers();
    proof {
        assert(prose@ == prose_of(content@));
        assert(marker_issues(prose@, ms.drop_last().drop_last().drop_last()) == Seq::<Seq<char>>::empty());
    }
    marker_check(&prose, &m0, &mut issues);
    proof {
        assert(string_views(issues@) == marker_issues(prose@, ms.drop_last().drop_last()));
    }
    marker_check(&prose, &m1, &mut issues);
    proof {
        assert(string_views(issues@) == marker_issues(prose@, ms.drop_last()));
    }
    marker_check(&prose, &m2, &mut issues);
    proof {
        assert(string_views(issues@) == marker_issues(prose@, markers()));
    }
    if has_angle_placeholder(prose_s.as_str()) {
        let mut t: Vec<char> = Vec::new();
        push_str(&mut t, "Leftover placeholder: <…> template marker");
        let ghost before = string_views(issues@);
        issues.push(string_of(&t));
        proof {
            assert(string_views(issues@) =~= before + seq![t@]);
        }
    }
    let ghost mid = string_views(issues@);
    if has_brace_placeholder(prose_s.as_str()) {
        let mut t: Vec<char> = Vec::new();
        push_str(&mut t, "Leftover placeholder: {…} template marker");
        issues.push(string_of(&t));
        proof {
            assert(string_views(issues@) =~= mid + seq![t@]);
        }
    } else {
        proof {
            assert(mid + Seq::<Seq<char>>::empty() == mid);
        }
    }
    issues
}

fn append_strings(out: &mut Vec<String>, more: Vec<String>)
    ensures
        string_views(final(out)@) == string_views(old(out)@) + string_views(more@),
{
    let n = more.len();
    let ghost start = string_views(out@);
    for i in 0..n
        invariant
            n == more@.len(),
            string_views(out@) == start + string_views(more@).take(i as int),
    {
        let ghost before = string_views(out@);
        out.push(more[i].clone());
        proof {
            assert(string_views(more@).take(i + 1) =~= string_views(more@).take(i as int).push(more@[i as int]@));
            assert(string_views(out@) =~= before.push(more@[i as int]@));
        }
    }
    proof {
        assert(string_views(more@).take(n as int) == string_views(more@));
    }
}

/// Run the structural check of a document against its type's template.
pub fn validate(content: &str, spec: &TemplateSpec) -> (out: ValidationReport)
    requires
        byte_len(content@) <= isize::MAX,
    ensures
        out.sections@.len() == spec.sections@.len(),
        forall|i: int|
            0 <= i < spec.sections@.len() ==> status_view(#[trigger] out.sections@[i]) == section_status_of(
                headings_of(front_matter_split(content@).1),
                spec.sections@[i],
            ),
        string_views(out.issues@) == validation_issues(content@, *spec),
        out.conforms == conforms_to(content@, *spec),
        out.conforms == (out.issues@.len() == 0),
{
    let (fm, body) = split_front_matter(content);
    let heads = headings(body.as_str());
    let ghost hv = heading_views(heads@);
    let ghost pv = pair_views(fm@);
    let mut issues: Vec<String> = Vec::new();
    let mut sections: Vec<SectionStatus> = Vec::new();
    let mut conforms = true;
    let n = spec.sections.len();
    proof {
        assert(spec.sections@.take(0) == Seq::<Section>::empty());
    }
    for i in 0..n
        invariant
            n == spec.sections@.len(),
            hv == heading_views(heads@),
            hv == headings_of(front_matter_split(content@).1),
            sections@.len() == i,
            forall|j: int| 0 <= j < i ==> status_view(#[trigger] sections@[j]) == section_status_of(hv, spec.sections@[j]),
            string_views(issues@) == section_issues(hv, spec.sections@.take(i as int)),
            conforms == all_sections_pass(hv, spec.sections@.take(i as int)),
    {
        let (st, issue, pass) = section_report(&heads, &spec.sections[i]);
        let ghost secs = spec.sections@.take(i + 1);
        proof {
            assert(secs.drop_last() == spec.sections@.take(i as int));
            assert(secs.last() == spec.sections@[i as int]);
            lemma_section_issues_empty(hv, secs);
            lemma_section_issues_empty(hv, secs.drop_last());
            if conforms && pass {
                assert forall|j: int| 0 <= j < secs.len() implies section_passes(
                    #[trigger] secs[j],
                    section_found(hv, secs[j]).0,
                    section_found(hv, secs[j]).1,
                ) by {
                    if j < i {
                        assert(secs[j] == spec.sections@.take(i as int)[j]);
                    }
                }
            }
            if all_sections_pass(hv, secs) {
                assert(section_passes(secs[i as int], section_found(hv, secs[i as int]).0, section_found(hv, secs[i as int]).1));
                assert forall|j: int| 0 <= j < i implies section_passes(
                    #[trigger] spec.sections@.take(i as int)[j],
                    section_found(hv, spec.sections@.take(i as int)[j]).0,
                    section_found(hv, spec.sections@.take(i as int)[j]).1,
                ) by {
                    assert(secs[j] == spec.sections@.take(i as int)[j]);
                }
            }
        }
        if !pass {
            conforms = false;
        }
        let ghost before = string_views(issues@);
        match issue {
            Some(t) => {
                issues.push(t);
                proof {
                    assert(string_views(issues@) =~= before + opt_seq(opt_view(Some(t))));
                }
            },
            None => {
                proof {
                    assert(string_views(issues@) =~= before + Seq::<Seq<char>>::empty());
                }
            },
        }
        sections.push(st);
    }
    proof {
        assert(spec.sections@.take(n as int) == spec.sections@);
    }
    let ghost after_sections = string_views(issues@);
    let (fm_iss, fm_ok) = fm_report(&fm, &spec.rules.front_matter);
    append_strings(&mut issues, fm_iss);
    if !fm_ok {
        conforms = false;
    }
    let ghost after_fm = string_views(issues@);
    let tw = title_word_count(&fm, &heads);
    if tw < spec.rules.min_title_words {
        conforms = false;
        let mut t: Vec<char> = Vec::new();
        push_str(&mut t, "Title has ");
        push_decimal(&mut t, tw);
        push_str(&mut t, " word(s), need at least ");
        push_decimal(&mut t, spec.rules.min_title_words);
        issues.push(string_of(&t));
        proof {
            assert(string_views(issues@) =~= after_fm + seq![t@]);
        }
    } else {
        proof {
            assert(string_views(issues@) =~= after_fm + Seq::<Seq<char>>::empty());
        }
    }
    let ghost after_title = string_views(issues@);
    if spec.rules.forbid_placeholders {
        let ph = placeholder_report(content);
        if ph.len() > 0 {
            conforms = false;
        }
        append_strings(&mut issues, ph);
    } else {
        proof {
            assert(string_views(issues@) =~= after_title + Seq::<Seq<char>>::empty());
        }
    }
    proof {
        lemma_section_issues_empty(hv, spec.sections@);
        lemma_fm_issues_empty(pv, spec.rules.front_matter@);
        let fs = front_matter_split(content@);
        let a = section_issues(hv, spec.sections@);
        let b = fm_issues(fs.0, spec.rules.front_matter@);
        let c = title_issues(title_words(fs.0, hv), spec.rules.min_title_words as nat);
        let d = if spec.rules.forbid_placeholders {
            placeholder_issues(content@)
        } else {
            Seq::<Seq<char>>::empty()
        };
        assert(string_views(issues@) == a + b + c + d);
        assert((a + b + c + d).len() == a.len() + b.len() + c.len() + d.len());
        assert(string_views(issues@).len() == issues@.len());
    }
    ValidationReport { conforms, sections, issues }
}

} // verus!
