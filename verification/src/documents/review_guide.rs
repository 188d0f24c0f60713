//! The criteria a document type's checklist states: what a document is
//! judged against beyond its structure. A verdict is only worth something
//! when it can name the criterion it failed, which is why every criterion
//! keeps the stable id its checklist gave it.

use vstd::prelude::*;

use crate::text::string_views;

use crate::documents::model::{DocumentType, Owner};
use crate::documents::paths::join;
use crate::text::{
    alphanumeric, chars_of, is_alphanumeric, is_upper, is_digit, lines_exec, opt_view,
    push_all, push_str, slice_of, split_char, split_char_exec, starts_with, starts_with_exec,
    string_of, strip_prefix, strip_prefix_exec, str_lines, trim, trim_chars, trim_end,
    trim_end_char, trim_end_char_exec, trim_start, trim_start_at, vec_views, find, find_exec,
};

verus! {

/// A review guide as its author wrote it: the checklist, and how to author
/// and review the kind.
#[derive(Clone, Debug, PartialEq, Eq)]
pub struct ReviewGuide {
    /// The checklist; criteria are parsed out of it by [`parse_checklist`].
    pub checklist: String,
    /// How to author and review the kind, served as-is.
    pub rules: String,
}

/// One criterion of a checklist.
#[derive(Clone, Debug, PartialEq, Eq)]
pub struct Criterion {
    /// The id the checklist gives it (`BIZ-PRD-001`).
    pub id: String,
    /// The title after the id.
    pub title: String,
    /// The enclosing top-level heading (`MUST HAVE`, `MUST NOT HAVE`, …).
    pub group: String,
    /// The enclosing second-level heading, without its leading pictogram.
    pub section: Option<String>,
    /// The RFC 2119 keyword the group or section opens with.
    pub level: Option<String>,
    /// The value of the criterion's `**Severity**:` line, when it has one.
    pub severity: Option<String>,
    /// The `- [ ]` lines, without the box.
    pub checks: Vec<String>,
    /// The criterion's body, verbatim, heading excluded.
    pub text: String,
}

pub struct CriterionV {
    pub id: Seq<char>,
    pub title: Seq<char>,
    pub group: Seq<char>,
    pub section: Option<Seq<char>>,
    pub level: Option<Seq<char>>,
    pub severity: Option<Seq<char>>,
    pub checks: Seq<Seq<char>>,
    pub text: Seq<char>,
}


impl View for Criterion {
    type V = CriterionV;

    open spec fn view(&self) -> CriterionV {
        CriterionV {
            id: self.id@,
            title: self.title@,
            group: self.group@,
            section: opt_view(self.section),
            level: opt_view(self.level),
            severity: opt_view(self.severity),
            checks: string_views(self.checks@),
            text: self.text@,
        }
    }
}

pub open spec fn criterion_views(v: Seq<Criterion>) -> Seq<CriterionV> {
    v.map_values(|c: Criterion| c@)
}

// ── reading a heading ────────────────────────────────────────────────────────

/// How many `#` a line opens with.
pub open spec fn hash_run(s: Seq<char>) -> nat
    decreases s.len(),
{
    if s.len() > 0 && s[0] == '#' {
        1 + hash_run(s.drop_first())
    } else {
        0
    }
}

pub open spec fn trim_end_hashes(s: Seq<char>) -> Seq<char> {
    trim_end_char(s, '#')
}

/// `(depth, text)` of an ATX heading, closing hashes removed.
pub open spec fn heading_of(line: Seq<char>) -> Option<(nat, Seq<char>)> {
    let h = hash_run(line);
    if h == 0 || h > 6 {
        None
    } else {
        let rest = line.skip(h as int);
        if rest.len() > 0 && rest[0] != ' ' && rest[0] != '\t' {
            None
        } else {
            Some((h, trim_end(trim_end_hashes(trim(rest)))))
        }
    }
}

/// A word of an id: upper-case ASCII letters and digits, at least one.
pub open spec fn id_word(p: Seq<char>) -> bool {
    p.len() > 0 && forall|i: int| 0 <= i < p.len() ==> is_upper(#[trigger] p[i]) || is_digit(p[i])
}

/// `<ID>: <title>`, when the heading names a criterion: the id is upper-case
/// words joined by dashes, with at least one dash, starting with a letter,
/// and the title is not empty.
pub open spec fn criterion_heading_of(heading: Seq<char>) -> Option<(Seq<char>, Seq<char>)> {
    match find(heading, ":"@) {
        None => None,
        Some(c) => {
            let id = heading.take(c);
            let title = trim(heading.skip(c + 1));
            let parts = split_char(id, '-');
            if parts[0].len() > 0 && is_upper(parts[0][0]) && parts.len() > 1 && (forall|k: int|
                0 <= k < parts.len() ==> id_word(#[trigger] parts[k])) && title.len() > 0 {
                Some((id, title))
            } else {
                None
            }
        },
    }
}

pub open spec fn trim_start_non_alnum(s: Seq<char>) -> Seq<char>
    decreases s.len(),
{
    if s.len() > 0 && !alphanumeric(s[0]) {
        trim_start_non_alnum(s.drop_first())
    } else {
        s
    }
}

/// A heading without the emoji or symbol a checklist decorates it with.
pub open spec fn strip_pictogram_of(heading: Seq<char>) -> Seq<char> {
    trim(trim_start_non_alnum(heading))
}

/// The RFC 2119 keywords, longest first.
pub open spec fn levels() -> Seq<Seq<char>> {
    seq![
        "MUST NOT"@,
        "SHALL NOT"@,
        "SHOULD NOT"@,
        "MUST"@,
        "SHALL"@,
        "SHOULD"@,
        "REQUIRED"@,
        "RECOMMENDED"@,
        "OPTIONAL"@,
        "MAY"@,
    ]
}

/// The heading opens with the keyword as a whole word.
pub open spec fn opens_with(h: Seq<char>, level: Seq<char>) -> bool {
    starts_with(h, level) && (h.len() == level.len() || !alphanumeric(h[level.len() as int]))
}

pub open spec fn level_from(h: Seq<char>, i: nat) -> Option<Seq<char>>
    decreases 10 - i,
{
    if i >= 10 {
        None
    } else if opens_with(h, levels()[i as int]) {
        Some(levels()[i as int])
    } else {
        level_from(h, i + 1)
    }
}

/// The RFC 2119 keyword a heading opens with, longest first.
pub open spec fn rfc2119_level_of(heading: Seq<char>) -> Option<Seq<char>> {
    level_from(strip_pictogram_of(heading), 0)
}

fn hash_run_exec(v: &Vec<char>) -> (out: usize)
    ensures
        out == hash_run(v@),
        out <= v@.len(),
{
    let n = v.len();
    let mut i: usize = 0;
    proof {
        assert(v@.skip(0) == v@);
    }
    while i < n && v[i] == '#'
        invariant
            n == v@.len(),
            i <= n,
            hash_run(v@) == i + hash_run(v@.skip(i as int)),
        decreases n - i,
    {
        proof {
            assert(v@.skip(i as int).drop_first() == v@.skip(i + 1));
        }
        i = i + 1;
    }
    i
}

fn heading_of_exec(line: &Vec<char>) -> (out: Option<(usize, Vec<char>)>)
    ensures
        match out {
            Some((d, t)) => heading_of(line@) == Some((d as nat, t@)),
            None => heading_of(line@) is None,
        },
{
    let h = hash_run_exec(line);
    if h == 0 || h > 6 {
        return None;
    }
    let n = line.len();
    let rest = slice_of(line, h, n);
    proof {
        assert(rest@ == line@.skip(h as int));
    }
    if rest.len() > 0 && rest[0] != ' ' && rest[0] != '\t' {
        return None;
    }
    let t = trim_chars(&rest);
    let t = trim_end_char_exec(&t, '#');
    let n2 = t.len();
    let j = crate::text::trim_end_at(&t, 0, n2);
    let out = slice_of(&t, 0, j);
    proof {
        assert(t@.subrange(0, n2 as int) == t@);
        assert(out@ == trim_end(t@));
    }
    Some((h, out))
}

fn is_id_word(p: &Vec<char>) -> (r: bool)
    ensures
        r == id_word(p@),
{
    if p.len() == 0 {
        return false;
    }
    let n = p.len();
    for i in 0..n
        invariant
            n == p@.len(),
            forall|j: int| 0 <= j < i ==> is_upper(#[trigger] p@[j]) || is_digit(p@[j]),
    {
        let c = p[i];
        if !(('A' <= c && c <= 'Z') || ('0' <= c && c <= '9')) {
            return false;
        }
    }
    true
}

/// `<ID>: <title>`, when the heading names a criterion.
pub fn criterion_heading(heading: &str) -> (out: Option<(String, String)>)
    ensures
        match out {
            Some((id, title)) => criterion_heading_of(heading@) == Some((id@, title@)),
            None => criterion_heading_of(heading@) is None,
        },
{
    let h = chars_of(heading);
    let colon = chars_of(":");
    let hn = h.len();
    let c = match find_exec(&h, &colon) {
        Some(c) => c,
        None => return None,
    };
    proof {
        reveal_strlit(":");
        assert(crate::text::occurs_at(h@, colon@, c as int));
    }
    let id = slice_of(&h, 0, c);
    let title = trim_chars(&slice_of(&h, c + 1, hn));
    proof {
        assert(h@.take(c as int) == id@);
        assert(h@.skip(c + 1) == h@.subrange(c + 1, hn as int));
    }
    let parts = split_char_exec(&id, '-');
    let ghost ps = vec_views(parts@);
    proof {
        assert(ps[0] == parts@[0]@);
    }
    if !(parts[0].len() > 0 && 'A' <= parts[0][0] && parts[0][0] <= 'Z') || parts.len() < 2 {
        return None;
    }
    let n = parts.len();
    for k in 0..n
        invariant
            n == parts@.len(),
            ps == vec_views(parts@),
            h@ == heading@,
            find(h@, ":"@) == Some(c as int),
            ps == split_char(h@.take(c as int), '-'),
            forall|j: int| 0 <= j < k ==> id_word(#[trigger] ps[j]),
    {
        proof {
            assert(ps[k as int] == parts@[k as int]@);
        }
        if !is_id_word(&parts[k]) {
            return None;
        }
    }
    if title.len() == 0 {
        return None;
    }
    Some((string_of(&id), string_of(&title)))
}

fn strip_pictogram(heading: &Vec<char>) -> (out: Vec<char>)
    ensures
        out@ == strip_pictogram_of(heading@),
{
    let n = heading.len();
    let mut i: usize = 0;
    proof {
        assert(heading@.skip(0) == heading@);
    }
    while i < n && !is_alphanumeric(heading[i])
        invariant
            n == heading@.len(),
            i <= n,
            trim_start_non_alnum(heading@) == trim_start_non_alnum(heading@.skip(i as int)),
        decreases n - i,
    {
        proof {
            assert(heading@.skip(i as int).drop_first() == heading@.skip(i + 1));
        }
        i = i + 1;
    }
    let rest = slice_of(heading, i, n);
    proof {
        assert(rest@ == heading@.skip(i as int));
        assert(trim_start_non_alnum(rest@) == rest@);
    }
    trim_chars(&rest)
}

fn level_name(i: usize) -> (out: &'static str)
    requires
        i < 10,
    ensures
        out@ == levels()[i as int],
{
    match i {
        0 => "MUST NOT",
        1 => "SHALL NOT",
        2 => "SHOULD NOT",
        3 => "MUST",
        4 => "SHALL",
        5 => "SHOULD",
        6 => "REQUIRED",
        7 => "RECOMMENDED",
        8 => "OPTIONAL",
        _ => "MAY",
    }
}

fn rfc2119_level(heading: &Vec<char>) -> (out: Option<String>)
    ensures
        opt_view(out) == rfc2119_level_of(heading@),
{
    let h = strip_pictogram(heading);
    let n = h.len();
    let mut i: usize = 0;
    while i < 10
        invariant
            n == h@.len(),
            h@ == strip_pictogram_of(heading@),
            i <= 10,
            level_from(h@, 0) == level_from(h@, i as nat),
        decreases 10 - i,
    {
        let level = level_name(i);
        let lv = chars_of(level);
        if starts_with_exec(&h, level) {
            let k = lv.len();
            proof {
                assert(k <= n);
            }
            if k == n || !is_alphanumeric(h[k]) {
                return Some(level.to_owned());
            }
        }
        i = i + 1;
    }
    None
}

// ── a criterion's body ───────────────────────────────────────────────────────

/// A checklist item: the text after `- [ ]`, `- [x]` or `- [X]`.
pub open spec fn check_item(t: Seq<char>) -> Option<Seq<char>> {
    match strip_prefix(t, "- [ ]"@) {
        Some(c) => Some(c),
        None => match strip_prefix(t, "- [x]"@) {
            Some(c) => Some(c),
            None => strip_prefix(t, "- [X]"@),
        },
    }
}

pub open spec fn is_fence_line(t: Seq<char>) -> bool {
    starts_with(t, "```"@) || starts_with(t, "~~~"@)
}

/// Reading a body so far: inside a fence or not, the severity, the checks.
pub struct FinishV {
    pub in_fence: bool,
    pub severity: Option<Seq<char>>,
    pub checks: Seq<Seq<char>>,
}

/// One body line: a fence toggles, fenced text is skipped, the first
/// `**Severity**:` line gives the severity, and a box line is a check.
pub open spec fn finish_step(st: FinishV, line: Seq<char>) -> FinishV {
    let t = trim(line);
    if is_fence_line(t) {
        FinishV { in_fence: !st.in_fence, ..st }
    } else if st.in_fence {
        st
    } else if st.severity is None && strip_prefix(t, "**Severity**:"@) is Some {
        FinishV { severity: Some(trim(strip_prefix(t, "**Severity**:"@).unwrap())), ..st }
    } else {
        match check_item(t) {
            Some(c) => FinishV { checks: st.checks.push(trim(c)), ..st },
            None => st,
        }
    }
}

pub open spec fn finish_pass(body: Seq<Seq<char>>) -> FinishV
    decreases body.len(),
{
    if body.len() == 0 {
        FinishV { in_fence: false, severity: None, checks: seq![] }
    } else {
        finish_step(finish_pass(body.drop_last()), body.last())
    }
}

/// A criterion completed by its body: severity, checks, and the body text.
pub open spec fn finished(c: CriterionV, body: Seq<Seq<char>>) -> CriterionV {
    let f = finish_pass(body);
    CriterionV { severity: f.severity, checks: f.checks, text: trim(join(body, '\n')), ..c }
}

// ── the checklist ────────────────────────────────────────────────────────────

/// The criterion being read, its heading depth, and its body so far.
pub struct OpenV {
    pub c: CriterionV,
    pub depth: nat,
    pub body: Seq<Seq<char>>,
}

/// Reading a checklist so far.
pub struct ParseV {
    pub out: Seq<CriterionV>,
    pub group: Seq<char>,
    pub section: Option<Seq<char>>,
    pub open: Option<OpenV>,
    /// The marker of the fence the reading is inside.
    pub fence: Option<Seq<char>>,
}

pub open spec fn push_body(st: ParseV, line: Seq<char>) -> ParseV {
    match st.open {
        Some(o) => ParseV { open: Some(OpenV { body: o.body.push(line), ..o }), ..st },
        None => st,
    }
}

/// The keyword the group opens with, else the one the section does.
pub open spec fn level_of(group: Seq<char>, section: Option<Seq<char>>) -> Option<Seq<char>> {
    match rfc2119_level_of(group) {
        Some(l) => Some(l),
        None => match section {
            Some(s) => rfc2119_level_of(s),
            None => None,
        },
    }
}

/// One line of the checklist. Inside a fence everything is body text; a
/// deeper heading belongs to the open criterion; any other heading closes
/// it, a first-level heading starts a group and a second-level one a
/// section, and a heading naming a criterion opens one.
pub open spec fn parse_step(st: ParseV, line: Seq<char>) -> ParseV {
    let t = trim_start(line);
    match st.fence {
        Some(m) => push_body(if starts_with(t, m) { ParseV { fence: None, ..st } } else { st }, line),
        None => if is_fence_line(t) {
            push_body(ParseV { fence: Some(t.take(3)), ..st }, line)
        } else {
            match heading_of(line) {
                None => push_body(st, line),
                Some((depth, heading)) => if st.open is Some && depth > st.open.unwrap().depth {
                    push_body(st, line)
                } else {
                    let out = match st.open {
                        Some(o) => st.out.push(finished(o.c, o.body)),
                        None => st.out,
                    };
                    let group = if depth == 1 { heading } else { st.group };
                    let section = if depth == 1 {
                        None
                    } else if depth == 2 {
                        Some(strip_pictogram_of(heading))
                    } else {
                        st.section
                    };
                    let open = match criterion_heading_of(heading) {
                        Some((id, title)) => Some(
                            OpenV {
                                c: CriterionV {
                                    id,
                                    title,
                                    group,
                                    section,
                                    level: level_of(group, section),
                                    severity: None,
                                    checks: seq![],
                                    text: seq![],
                                },
                                depth,
                                body: seq![],
                            },
                        ),
                        None => None,
                    };
                    ParseV { out, group, section, open, fence: None }
                },
            }
        },
    }
}

pub open spec fn parse_pass(lines: Seq<Seq<char>>) -> ParseV
    decreases lines.len(),
{
    if lines.len() == 0 {
        ParseV { out: seq![], group: seq![], section: None, open: None, fence: None }
    } else {
        parse_step(parse_pass(lines.drop_last()), lines.last())
    }
}

/// The criteria of a checklist, in order.
pub open spec fn parse_checklist_of(markdown: Seq<char>) -> Seq<CriterionV> {
    let st = parse_pass(str_lines(markdown));
    match st.open {
        Some(o) => st.out.push(finished(o.c, o.body)),
        None => st.out,
    }
}

fn check_item_exec(t: &Vec<char>) -> (out: Option<Vec<char>>)
    ensures
        match out {
            Some(c) => check_item(t@) == Some(c@),
            None => check_item(t@) is None,
        },
{
    match strip_prefix_exec(t, "- [ ]") {
        Some(c) => Some(c),
        None => match strip_prefix_exec(t, "- [x]") {
            Some(c) => Some(c),
            None => strip_prefix_exec(t, "- [X]"),
        },
    }
}

fn finish(c: Criterion, body: &Vec<Vec<char>>) -> (out: Criterion)
    requires
        c.severity is None,
        c.checks@.len() == 0,
    ensures
        out@ == finished(c@, vec_views(body@)),
{
    let ghost bv = vec_views(body@);
    let mut in_fence = false;
    let mut severity: Option<String> = None;
    let mut checks: Vec<String> = Vec::new();
    let n = body.len();
    proof {
        assert(bv.take(0) =~= Seq::<Seq<char>>::empty());
        assert(string_views(checks@) =~= Seq::<Seq<char>>::empty());
    }
    for i in 0..n
        invariant
            n == body@.len(),
            bv == vec_views(body@),
            finish_pass(bv.take(i as int)) == (FinishV { in_fence, severity: opt_view(severity), checks: string_views(checks@) }),
    {
        proof {
            assert(bv.take(i + 1).drop_last() == bv.take(i as int));
            assert(bv.take(i + 1).last() == body@[i as int]@);
        }
        let t = trim_chars(&body[i]);
        if starts_with_exec(&t, "```") || starts_with_exec(&t, "~~~") {
            in_fence = !in_fence;
        } else if in_fence {
        } else {
            let sev = if severity.is_none() { strip_prefix_exec(&t, "**Severity**:") } else { None };
            match sev {
                Some(v) => {
                    severity = Some(string_of(&trim_chars(&v)));
                },
                None => {
                    match check_item_exec(&t) {
                        Some(ch) => {
                            let s = string_of(&trim_chars(&ch));
                            let ghost before = string_views(checks@);
                            let ghost sv = s@;
                            checks.push(s);
                            proof {
                                assert(string_views(checks@) =~= before.push(sv));
                            }
                        },
                        None => {},
                    }
                },
            }
        }
    }
    proof {
        assert(bv.take(n as int) == bv);
    }
    let joined = join_exec(body);
    let text = string_of(&trim_chars(&joined));
    Criterion {
        id: c.id,
        title: c.title,
        group: c.group,
        section: c.section,
        level: c.level,
        severity,
        checks,
        text,
    }
}

fn join_exec(body: &Vec<Vec<char>>) -> (out: Vec<char>)
    ensures
        out@ == join(vec_views(body@), '\n'),
{
    let ghost bv = vec_views(body@);
    let mut out: Vec<char> = Vec::new();
    let n = body.len();
    for i in 0..n
        invariant
            n == body@.len(),
            bv == vec_views(body@),
            out@ == join(bv.take(i as int), '\n'),
    {
        proof {
            assert(bv.take(i + 1).drop_last() == bv.take(i as int));
            assert(bv.take(i + 1).last() == body@[i as int]@);
            if i == 0 {
                assert(bv.take(1) =~= seq![body@[0]@]);
            }
        }
        if i > 0 {
            out.push('\n');
        }
        push_all(&mut out, &body[i]);
    }
    proof {
        assert(bv.take(n as int) == bv);
    }
    out
}

pub open spec fn opt_chars(o: Option<Vec<char>>) -> Option<Seq<char>> {
    match o {
        Some(v) => Some(v@),
        None => None,
    }
}

struct ParseState {
    out: Vec<Criterion>,
    group: Vec<char>,
    section: Option<Vec<char>>,
    open: Option<(Criterion, usize, Vec<Vec<char>>)>,
    fence: Option<Vec<char>>,
}

impl View for ParseState {
    type V = ParseV;

    closed spec fn view(&self) -> ParseV {
        ParseV {
            out: criterion_views(self.out@),
            group: self.group@,
            section: opt_chars(self.section),
            open: match self.open {
                Some((c, d, b)) => Some(OpenV { c: c@, depth: d as nat, body: vec_views(b@) }),
                None => None,
            },
            fence: opt_chars(self.fence),
        }
    }
}

impl ParseState {
    /// The open criterion has no severity or checks yet: its body gives them.
    closed spec fn fresh(&self) -> bool {
        match self.open {
            Some((c, d, b)) => c.severity is None && c.checks@.len() == 0,
            None => true,
        }
    }
}

fn push_body_exec(st: &mut ParseState, line: &Vec<char>)
    requires
        old(st).fresh(),
    ensures
        final(st).fresh(),
        final(st)@ == push_body(old(st)@, line@),
{
    match st.open.take() {
        Some((c, d, mut b)) => {
            let ghost b0 = b@;
            b.push(line.clone());
            proof {
                assert(vec_views(b@) =~= vec_views(b0).push(line@));
            }
            st.open = Some((c, d, b));
        },
        None => {},
    }
}

fn copy_chars(v: &Vec<char>) -> (out: Vec<char>)
    ensures
        out@ == v@,
{
    let n = v.len();
    slice_of(v, 0, n)
}

fn copy_opt_chars(o: &Option<Vec<char>>) -> (out: Option<Vec<char>>)
    ensures
        opt_chars(out) == opt_chars(*o),
{
    match o {
        Some(v) => Some(copy_chars(v)),
        None => None,
    }
}

fn opt_string(o: &Option<Vec<char>>) -> (out: Option<String>)
    ensures
        opt_view(out) == opt_chars(*o),
{
    match o {
        Some(v) => Some(string_of(v)),
        None => None,
    }
}

fn parse_line(st: &mut ParseState, line: &Vec<char>)
    requires
        old(st).fresh(),
    ensures
        final(st).fresh(),
        final(st)@ == parse_step(old(st)@, line@),
{
    let ln = line.len();
    let ts = crate::text::trim_start_at(line, 0);
    let t = slice_of(line, ts, ln);
    proof {
        assert(line@.skip(0) == line@);
        assert(t@ == trim_start(line@));
    }
    if st.fence.is_some() {
        let m = match &st.fence {
            Some(m) => copy_chars(m),
            None => Vec::new(),
        };
        let closes = crate::text::occurs_at_exec(&t, &m, 0);
        proof {
            assert(closes == starts_with(t@, m@)) by {
                if closes {
                    assert(t@.subrange(0, m@.len() as int) == t@.take(m@.len() as int));
                } else if m@.len() <= t@.len() {
                    assert(t@.subrange(0, m@.len() as int) == t@.take(m@.len() as int));
                }
            }
        }
        if closes {
            st.fence = None;
        }
        push_body_exec(st, line);
        return;
    }
    if starts_with_exec(&t, "```") || starts_with_exec(&t, "~~~") {
        proof {
            reveal_strlit("```");
            reveal_strlit("~~~");
        }
        st.fence = Some(slice_of(&t, 0, 3));
        proof {
            assert(t@.subrange(0, 3) == t@.take(3));
        }
        push_body_exec(st, line);
        return;
    }
    let (depth, heading) = match heading_of_exec(line) {
        Some(h) => h,
        None => {
            push_body_exec(st, line);
            return;
        },
    };
    let deeper = match &st.open {
        Some((_, d, _)) => depth > *d,
        None => false,
    };
    if deeper {
        push_body_exec(st, line);
        return;
    }
    let ghost before = st@;
    match st.open.take() {
        Some((c, d, b)) => {
            let f = finish(c, &b);
            let ghost o0 = criterion_views(st.out@);
            let ghost fv = f@;
            st.out.push(f);
            proof {
                assert(criterion_views(st.out@) =~= o0.push(fv));
            }
        },
        None => {},
    }
    if depth == 1 {
        st.group = copy_chars(&heading);
        st.section = None;
    } else if depth == 2 {
        st.section = Some(strip_pictogram(&heading));
    }
    let h = string_of(&heading);
    match criterion_heading(h.as_str()) {
        Some((id, title)) => {
            let group = string_of(&st.group);
            let section = opt_string(&st.section);
            let level = match rfc2119_level(&st.group) {
                Some(l) => Some(l),
                None => match &st.section {
                    Some(s) => rfc2119_level(s),
                    None => None,
                },
            };
            let c = Criterion {
                id,
                title,
                group,
                section,
                level,
                severity: None,
                checks: Vec::new(),
                text: String::new(),
            };
            proof {
                assert(string_views(c.checks@) =~= Seq::<Seq<char>>::empty());
                assert(c.text@ =~= Seq::<char>::empty());
            }
            let body: Vec<Vec<char>> = Vec::new();
            proof {
                assert(vec_views(body@) =~= Seq::<Seq<char>>::empty());
            }
            st.open = Some((c, depth, body));
        },
        None => {},
    }
    st.fence = None;
}

/// Parse a checklist into its criteria.
///
/// A criterion is a heading whose text is `<ID>: <title>`, where the id is
/// upper-case words joined by dashes with at least one dash. Its body runs
/// to the next heading at its own level or above; deeper headings belong to
/// it. Headings inside a fenced block are text, not structure.
pub fn parse_checklist(markdown: &str) -> (out: Vec<Criterion>)
    ensures
        criterion_views(out@) == parse_checklist_of(markdown@),
{
    let lines = lines_exec(markdown);
    let ghost ls = vec_views(lines@);
    let mut st = ParseState { out: Vec::new(), group: Vec::new(), section: None, open: None, fence: None };
    proof {
        assert(criterion_views(st.out@) =~= Seq::<CriterionV>::empty());
        assert(st.group@ =~= Seq::<char>::empty());
        assert(ls.take(0) =~= Seq::<Seq<char>>::empty());
    }
    let n = lines.len();
    for i in 0..n
        invariant
            n == lines@.len(),
            ls == vec_views(lines@),
            ls == str_lines(markdown@),
            st.fresh(),
            st@ == parse_pass(ls.take(i as int)),
    {
        proof {
            assert(ls.take(i + 1).drop_last() == ls.take(i as int));
            assert(ls.take(i + 1).last() == lines@[i as int]@);
        }
        parse_line(&mut st, &lines[i]);
    }
    proof {
        assert(ls.take(n as int) == ls);
    }
    match st.open.take() {
        Some((c, d, b)) => {
            let f = finish(c, &b);
            let ghost o0 = criterion_views(st.out@);
            let ghost fv = f@;
            st.out.push(f);
            proof {
                assert(criterion_views(st.out@) =~= o0.push(fv));
            }
        },
        None => {},
    }
    st.out
}


pub struct ReviewGuideV {
    pub checklist: Seq<char>,
    pub rules: Seq<char>,
}

impl View for ReviewGuide {
    type V = ReviewGuideV;

    open spec fn view(&self) -> ReviewGuideV {
        ReviewGuideV { checklist: self.checklist@, rules: self.rules@ }
    }
}

/// The guide that applies to a type, and the level it came from: the
/// type's own guide, with the type's owner; else `builtin`, the kit's guide
/// for the type's key, as the kit's; else none.
pub open spec fn effective_guide_of(
    own: Option<ReviewGuideV>,
    owner: Owner,
    builtin: Option<ReviewGuideV>,
) -> Option<(ReviewGuideV, Owner)> {
    match own {
        Some(g) => Some((g, owner)),
        None => match builtin {
            Some(b) => Some((b, Owner::Builtin)),
            None => None,
        },
    }
}

pub open spec fn opt_guide_view(g: Option<ReviewGuide>) -> Option<ReviewGuideV> {
    match g {
        Some(x) => Some(x@),
        None => None,
    }
}

/// The guide that applies to an effective type, and the level it came from.
///
/// The type's own guide wins; otherwise the built-in guide for its key
/// (`builtin`, which the caller looks up in the kit), so a workspace that
/// overrides `prd` to rename a section keeps the kit's criteria until it
/// states criteria of its own.
pub fn effective_guide(ty: &DocumentType, builtin: Option<ReviewGuide>) -> (out: Option<(ReviewGuide, Owner)>)
    ensures
        match out {
            Some((g, o)) => effective_guide_of(opt_guide_view(ty.template.review), ty.owner, opt_guide_view(builtin))
                == Some((g@, o)),
            None => effective_guide_of(opt_guide_view(ty.template.review), ty.owner, opt_guide_view(builtin)) is None,
        },
{
    match &ty.template.review {
        Some(g) => Some((ReviewGuide { checklist: g.checklist.clone(), rules: g.rules.clone() }, ty.owner)),
        None => match builtin {
            Some(b) => Some((b, Owner::Builtin)),
            None => None,
        },
    }
}

proof fn lemma_level_from(h: Seq<char>, i: nat)
    ensures
        match level_from(h, i) {
            Some(k) => exists|j: int| i <= j < 10 && (#[trigger] levels()[j]) == k && opens_with(h, k),
            None => forall|j: int| i <= j < 10 ==> !opens_with(h, #[trigger] levels()[j]),
        },
    decreases 10 - i,
{
    if i < 10 {
        lemma_level_from(h, i + 1);
    }
}

/// The level of a heading is a keyword of the RFC 2119 list that opens it
/// as a whole word (after its pictogram), and none when no keyword does; a
/// negated keyword wins over the one it negates, so a heading opening with
/// `SHOULD NOT` states a prohibition, never a recommendation (and likewise
/// `MUST NOT` and `SHALL NOT`).
pub proof fn law_a_negated_keyword_is_the_level(h: Seq<char>)
    ensures
        ({
            let t = strip_pictogram_of(h);
            &&& match rfc2119_level_of(h) {
                Some(k) => levels().contains(k) && starts_with(t, k) && (t.len() == k.len() || !alphanumeric(t[k.len() as int])),
                None => forall|j: int| 0 <= j < levels().len() ==> !opens_with(t, #[trigger] levels()[j]),
            }
            &&& starts_with(t, "MUST NOT"@) && (t.len() == 8 || !alphanumeric(t[8])) ==> rfc2119_level_of(h) == Some("MUST NOT"@)
            &&& starts_with(t, "SHALL NOT"@) && (t.len() == 9 || !alphanumeric(t[9])) ==> rfc2119_level_of(h) == Some("SHALL NOT"@)
            &&& starts_with(t, "SHOULD NOT"@) && (t.len() == 10 || !alphanumeric(t[10])) ==> rfc2119_level_of(h) == Some("SHOULD NOT"@)
        }),
{
    let t = strip_pictogram_of(h);
    lemma_level_from(t, 0);
    match rfc2119_level_of(h) {
        Some(k) => {
            let j = choose|j: int| 0 <= j < 10 && (#[trigger] levels()[j]) == k && opens_with(t, k);
            assert(levels()[j] == k);
        },
        None => {},
    }
    reveal_strlit("MUST NOT");
    reveal_strlit("SHALL NOT");
    reveal_strlit("SHOULD NOT");
    assert(levels()[0] == "MUST NOT"@);
    assert(levels()[1] == "SHALL NOT"@);
    assert(levels()[2] == "SHOULD NOT"@);
    if opens_with(t, "MUST NOT"@) {
        assert(level_from(t, 0) == Some(levels()[0]));
    }
    if opens_with(t, "SHALL NOT"@) {
        assert(t.take(9) == "SHALL NOT"@);
        assert(t.take(9)[0] == t[0]);
        assert(t[0] == 'S');
        assert(!opens_with(t, "MUST NOT"@));
        assert(level_from(t, 0) == level_from(t, 1));
        assert(level_from(t, 1) == Some(levels()[1]));
    }
    if opens_with(t, "SHOULD NOT"@) {
        assert(t.take(10) == "SHOULD NOT"@);
        assert(t.take(10)[0] == t[0]);
        assert(t.take(10)[2] == t[2]);
        assert(t[0] == 'S' && t[2] == 'O');
        if opens_with(t, "SHALL NOT"@) {
            assert(t.take(9)[2] == t[2]);
        }
        assert(!opens_with(t, "SHALL NOT"@));
        assert(level_from(t, 0) == level_from(t, 1));
        assert(level_from(t, 1) == level_from(t, 2));
        assert(level_from(t, 2) == Some(levels()[2]));
        assert(!opens_with(t, "MUST NOT"@));
        assert(!opens_with(t, "SHALL NOT"@));
    }
}

} // verus!
