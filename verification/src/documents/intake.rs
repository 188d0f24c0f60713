//! Reading back what a generated document declares: the capabilities its
//! front matter lists. The `capabilities` column is an index over that text,
//! re-derived on every write, so a hand-edited document is re-indexed from
//! its own words.

use vstd::prelude::*;

use crate::text::string_views;

use crate::documents::model::{DocumentType, Question, QuestionKind, Section};
use crate::documents::validate::{
    is_fence, is_fence_exec, leading_hashes, leading_hashes_exec, normalize_heading, normalize_heading_exec, wanted_of,
};
use crate::text::{
    is_blank, join_str, join_strings, lines_exec, starts_with_exec, trim_end_at, trim_start_at, opt_view, push_all, push_str, seq_eq, starts_with, str_eq, str_lines, trim_end, trim_start, chars_of, find, find_exec, split_char, split_char_exec, string_of, strip_prefix,
    strip_prefix_exec, trim, trim_chars, trim_end_char, trim_end_char_exec, trim_start_char,
    trim_start_char_exec, vec_views, slice_of,
};

verus! {

pub open spec fn is_quote(c: char) -> bool {
    c == '"' || c == '\''
}

pub open spec fn trim_quotes_start(s: Seq<char>) -> Seq<char>
    decreases s.len(),
{
    if s.len() > 0 && is_quote(s[0]) {
        trim_quotes_start(s.drop_first())
    } else {
        s
    }
}

pub open spec fn trim_quotes_end(s: Seq<char>) -> Seq<char>
    decreases s.len(),
{
    if s.len() > 0 && is_quote(s.last()) {
        trim_quotes_end(s.drop_last())
    } else {
        s
    }
}

/// An item of the list: trimmed, then any quotes at either end removed.
pub open spec fn list_item(p: Seq<char>) -> Seq<char> {
    trim_quotes_end(trim_quotes_start(trim(p)))
}

pub open spec fn list_items(ps: Seq<Seq<char>>) -> Seq<Seq<char>>
    decreases ps.len(),
{
    if ps.len() == 0 {
        seq![]
    } else if list_item(ps.last()).len() == 0 {
        list_items(ps.drop_last())
    } else {
        list_items(ps.drop_last()).push(list_item(ps.last()))
    }
}

/// `a, b`, `[a, b]` and quoted items all read as the same list.
pub open spec fn capability_list(list: Seq<char>) -> Seq<Seq<char>> {
    list_items(split_char(trim_end_char(trim_start_char(trim(list), '['), ']'), ','))
}

/// The first line whose trimmed text starts `capabilities:`, and what
/// follows that.
pub open spec fn capabilities_line(lines: Seq<Seq<char>>, i: nat) -> Option<Seq<char>>
    decreases lines.len() - i,
{
    if i >= lines.len() {
        None
    } else {
        match strip_prefix(trim(lines[i as int]), "capabilities:"@) {
            Some(rest) => Some(rest),
            None => capabilities_line(lines, i + 1),
        }
    }
}

/// The front matter's text: what lies between the opening `---` line and
/// the next line starting `---`, a byte-order mark before it ignored.
pub open spec fn front_matter_of(content: Seq<char>) -> Option<Seq<char>> {
    let c = match strip_prefix(content, "\u{feff}"@) {
        Some(r) => r,
        None => content,
    };
    let rest = match strip_prefix(c, "---\n"@) {
        Some(r) => Some(r),
        None => strip_prefix(c, "---\r\n"@),
    };
    match rest {
        Some(r) => match find(r, "\n---"@) {
            Some(end) => Some(r.take(end)),
            None => None,
        },
        None => None,
    }
}

/// The capabilities a document declares in its front matter, in order;
/// none when it has no front matter or no `capabilities:` line. (Lines are
/// split at `\n`; a `\r` before it is white space that the trim removes.)
pub open spec fn declared_capabilities_of(content: Seq<char>) -> Seq<Seq<char>> {
    match front_matter_of(content) {
        Some(fm) => match capabilities_line(split_char(fm, '\n'), 0) {
            Some(list) => capability_list(list),
            None => seq![],
        },
        None => seq![],
    }
}


fn trim_quotes(v: &Vec<char>) -> (out: Vec<char>)
    ensures
        out@ == trim_quotes_end(trim_quotes_start(v@)),
{
    let n = v.len();
    let mut i: usize = 0;
    proof {
        assert(v@.skip(0) == v@);
    }
    while i < n && (v[i] == '"' || v[i] == '\'')
        invariant
            n == v@.len(),
            i <= n,
            trim_quotes_start(v@) == trim_quotes_start(v@.skip(i as int)),
        decreases n - i,
    {
        proof {
            assert(v@.skip(i as int).drop_first() == v@.skip(i + 1));
        }
        i = i + 1;
    }
    let ghost s = v@.skip(i as int);
    proof {
        assert(trim_quotes_start(s) == s);
    }
    let mut j: usize = n;
    proof {
        assert(v@.subrange(i as int, n as int) == s);
    }
    while j > i && (v[j - 1] == '"' || v[j - 1] == '\'')
        invariant
            n == v@.len(),
            i <= j <= n,
            s == v@.skip(i as int),
            trim_quotes_end(s) == trim_quotes_end(v@.subrange(i as int, j as int)),
        decreases j,
    {
        proof {
            assert(v@.subrange(i as int, j as int).drop_last() == v@.subrange(i as int, j - 1));
        }
        j = j - 1;
    }
    let out = slice_of(v, i, j);
    proof {
        assert(trim_quotes_end(out@) == out@);
    }
    out
}

fn capability_list_exec(list: &Vec<char>) -> (out: Vec<String>)
    ensures
        string_views(out@) == capability_list(list@),
{
    let t = trim_end_char_exec(&trim_start_char_exec(&trim_chars(list), '['), ']');
    let parts = split_char_exec(&t, ',');
    let ghost ps = vec_views(parts@);
    let mut out: Vec<String> = Vec::new();
    let n = parts.len();
    for i in 0..n
        invariant
            n == parts@.len(),
            ps == vec_views(parts@),
            string_views(out@) == list_items(ps.take(i as int)),
    {
        proof {
            assert(ps.take(i + 1).drop_last() == ps.take(i as int));
            assert(ps.take(i + 1).last() == parts@[i as int]@);
        }
        let item = trim_quotes(&trim_chars(&parts[i]));
        if item.len() > 0 {
            let s = string_of(&item);
            let ghost before = string_views(out@);
            out.push(s);
            proof {
                assert(string_views(out@) =~= before.push(item@));
            }
        }
    }
    proof {
        assert(ps.take(n as int) == ps);
    }
    out
}

/// The capabilities a document declares, read back out of its front matter.
pub fn declared_capabilities(content: &str) -> (out: Vec<String>)
    ensures
        string_views(out@) == declared_capabilities_of(content@),
{
    let all = chars_of(content);
    let c = match strip_prefix_exec(&all, "\u{feff}") {
        Some(r) => r,
        None => all,
    };
    let rest = match strip_prefix_exec(&c, "---\n") {
        Some(r) => r,
        None => match strip_prefix_exec(&c, "---\r\n") {
            Some(r) => r,
            None => return Vec::new(),
        },
    };
    let close = chars_of("\n---");
    let end = match find_exec(&rest, &close) {
        Some(e) => e,
        None => return Vec::new(),
    };
    proof {
        reveal_strlit("\n---");
        assert(crate::text::occurs_at(rest@, close@, end as int));
    }
    let fm = slice_of(&rest, 0, end);
    proof {
        assert(rest@.take(end as int) == rest@.subrange(0, end as int));
    }
    let lines = split_char_exec(&fm, '\n');
    let ghost ls = vec_views(lines@);
    let n = lines.len();
    let mut i: usize = 0;
    while i < n
        invariant
            n == lines@.len(),
            ls == vec_views(lines@),
            i <= n,
            declared_capabilities_of(content@) == match capabilities_line(ls, i as nat) {
                Some(list) => capability_list(list),
                None => seq![],
            },
        decreases n - i,
    {
        let t = trim_chars(&lines[i]);
        proof {
            assert(ls[i as int] == lines@[i as int]@);
        }
        match strip_prefix_exec(&t, "capabilities:") {
            Some(list) => {
                return capability_list_exec(&list);
            },
            None => {},
        }
        i = i + 1;
    }
    Vec::new()
}

// ── from answers to capabilities ─────────────────────────────────────────────

/// One answer, as the wire carries it. Exactly one field is meaningful per
/// question kind; the rest are `None`.
#[derive(Clone, Debug, Default, PartialEq, Eq)]
pub struct Answer {
    pub question_id: String,
    /// `text`, `long_text` and `single`.
    pub text: Option<String>,
    /// `multi`.
    pub choices: Option<Vec<String>>,
    /// `bool`.
    pub flag: Option<bool>,
}

/// The first answer to the question `id`.
pub open spec fn find_answer(answers: Seq<Answer>, id: Seq<char>, i: int) -> Option<Answer>
    decreases answers.len() - i,
{
    if i < 0 || i >= answers.len() {
        None
    } else if answers[i].question_id@ == id {
        Some(answers[i])
    } else {
        find_answer(answers, id, i + 1)
    }
}

/// The answer to `q`, rendered as markdown; empty when unanswered.
pub open spec fn answer_text_of(q: Question, a: Option<Answer>) -> Seq<char> {
    match a {
        None => seq![],
        Some(a) => match q.kind {
            QuestionKind::Bool => match a.flag {
                Some(true) => "Yes"@,
                Some(false) => "No"@,
                None => seq![],
            },
            QuestionKind::Multi => match a.choices {
                Some(c) => join_str(string_views(c@), ", "@),
                None => seq![],
            },
            _ => match a.text {
                Some(t) => trim(t@),
                None => seq![],
            },
        },
    }
}

/// Whether `q` was answered at all; `false` is an answer to a yes/no question.
pub open spec fn answered_of(q: Question, a: Option<Answer>) -> bool {
    match a {
        None => false,
        Some(a) => match q.kind {
            QuestionKind::Bool => a.flag is Some,
            QuestionKind::Multi => a.choices matches Some(c) && c@.len() > 0,
            _ => a.text matches Some(t) && trim(t@).len() > 0,
        },
    }
}

/// Whether the answer seeds `q`'s capability: it has one, it is answered,
/// and a yes/no question was answered yes.
pub open spec fn seeds(q: Question, a: Option<Answer>) -> bool {
    &&& q.capability is Some
    &&& answered_of(q, a)
    &&& (q.kind == QuestionKind::Bool ==> (a matches Some(x) && x.flag == Some(true)))
}

/// The capabilities the answers seed, in questionnaire order, each once.
pub open spec fn seeded_of(qs: Seq<Question>, answers: Seq<Answer>) -> Seq<Seq<char>>
    decreases qs.len(),
{
    if qs.len() == 0 {
        seq![]
    } else {
        let s = seeded_of(qs.drop_last(), answers);
        let q = qs.last();
        if seeds(q, find_answer(answers, q.id@, 0)) && !s.contains(q.capability->0@) {
            s.push(q.capability->0@)
        } else {
            s
        }
    }
}

fn find_answer_exec<'a>(answers: &'a [Answer], id: &str) -> (out: Option<&'a Answer>)
    ensures
        match out {
            Some(a) => find_answer(answers@, id@, 0) == Some(*a),
            None => find_answer(answers@, id@, 0) is None,
        },
{
    let n = answers.len();
    let mut i: usize = 0;
    while i < n
        invariant
            n == answers@.len(),
            i <= n,
            find_answer(answers@, id@, 0) == find_answer(answers@, id@, i as int),
        decreases n - i,
    {
        if str_eq(answers[i].question_id.as_str(), id) {
            return Some(&answers[i]);
        }
        i = i + 1;
    }
    None
}

fn answer_text(q: &Question, a: Option<&Answer>) -> (out: String)
    ensures
        out@ == answer_text_of(*q, match a {
            Some(x) => Some(*x),
            None => None,
        }),
{
    proof {
        reveal_strlit("");
    }
    let a = match a {
        Some(a) => a,
        None => {
            return String::new();
        },
    };
    match q.kind {
        QuestionKind::Bool => match a.flag {
            Some(true) => "Yes".to_string(),
            Some(false) => "No".to_string(),
            None => String::new(),
        },
        QuestionKind::Multi => match &a.choices {
            Some(c) => {
                let out = join_strings(c, ", ");
                proof {
                    assert(c@.map_values(|s: String| s@) == string_views(c@));
                }
                out
            },
            None => String::new(),
        },
        _ => match &a.text {
            Some(t) => string_of(&trim_chars(&chars_of(t.as_str()))),
            None => String::new(),
        },
    }
}

fn answered(q: &Question, a: Option<&Answer>) -> (r: bool)
    ensures
        r == answered_of(*q, match a {
            Some(x) => Some(*x),
            None => None,
        }),
{
    let a = match a {
        Some(a) => a,
        None => {
            return false;
        },
    };
    match q.kind {
        QuestionKind::Bool => a.flag.is_some(),
        QuestionKind::Multi => match &a.choices {
            Some(c) => c.len() > 0,
            None => false,
        },
        _ => match &a.text {
            Some(t) => !is_blank(t.as_str()),
            None => false,
        },
    }
}

fn contains_string(v: &Vec<String>, s: &str) -> (r: bool)
    ensures
        r == string_views(v@).contains(s@),
{
    let n = v.len();
    for i in 0..n
        invariant
            n == v@.len(),
            forall|k: int| 0 <= k < i ==> v@[k]@ != s@,
    {
        if str_eq(v[i].as_str(), s) {
            proof {
                assert(string_views(v@)[i as int] == s@);
            }
            return true;
        }
    }
    proof {
        if string_views(v@).contains(s@) {
            let k = choose|k: int| 0 <= k < string_views(v@).len() && string_views(v@)[k] == s@;
            assert(string_views(v@)[k] == v@[k]@);
        }
    }
    false
}

/// The capabilities a set of answers seeds, in questionnaire order,
/// deduplicated. A "no" does not seed: it answers the question, and says
/// the capability is not wanted.
pub fn seeded_capabilities(ty: &DocumentType, answers: &[Answer]) -> (out: Vec<String>)
    ensures
        string_views(out@) == seeded_of(ty.template.questionnaire@, answers@),
{
    let qs = &ty.template.questionnaire;
    let n = qs.len();
    let mut seen: Vec<String> = Vec::new();
    for i in 0..n
        invariant
            n == qs@.len(),
            string_views(seen@) == seeded_of(qs@.take(i as int), answers@),
    {
        proof {
            assert(qs@.take(i + 1).drop_last() == qs@.take(i as int));
            assert(qs@.take(i + 1).last() == qs@[i as int]);
        }
        let q = &qs[i];
        let answer = find_answer_exec(answers, q.id.as_str());
        let ok = answered(q, answer);
        let yes = match q.kind {
            QuestionKind::Bool => match answer {
                Some(a) => match a.flag {
                    Some(true) => true,
                    _ => false,
                },
                None => false,
            },
            _ => true,
        };
        match &q.capability {
            Some(capability) => {
                if ok && yes && !contains_string(&seen, capability.as_str()) {
                    let ghost before = string_views(seen@);
                    seen.push(capability.clone());
                    proof {
                        assert(string_views(seen@) =~= before.push(capability@));
                    }
                }
            },
            None => {},
        }
    }
    proof {
        assert(qs@.take(n as int) == qs@);
    }
    seen
}

// ── from answers to a document ───────────────────────────────────────────────

/// The template's front-matter lines, verbatim, and the body after it.
pub open spec fn raw_front_of(content: Seq<char>) -> (Seq<Seq<char>>, Seq<char>) {
    match strip_prefix(content, "---\n"@) {
        None => (seq![], content),
        Some(rest) => match find(rest, "\n---\n"@) {
            None => (seq![], content),
            Some(end) => (str_lines(rest.take(end)), rest.skip(end + 5)),
        },
    }
}

/// A front-matter line's key: what comes before its first `:`, trimmed.
pub open spec fn front_key_of(line: Seq<char>) -> Seq<char> {
    trim(split_char(line, ':')[0])
}

pub open spec fn has_front_key(front: Seq<Seq<char>>, name: Seq<char>) -> bool {
    exists|i: int| 0 <= i < front.len() && front_key_of(#[trigger] front[i]) == name
}

/// The template's front-matter lines other than its `capabilities`.
pub open spec fn kept_front(front: Seq<Seq<char>>) -> Seq<Seq<char>> {
    front.filter(|l: Seq<char>| front_key_of(l) != "capabilities"@)
}

/// The lines of a generated document's front matter: a draft status and an
/// owner where the template sets none, the template's own lines, and the
/// seeded capabilities where there are any.
pub open spec fn header_lines(front: Seq<Seq<char>>, caps: Seq<Seq<char>>) -> Seq<Seq<char>> {
    (if has_front_key(front, "status"@) { seq![] } else { seq!["status: draft"@] }) + (if has_front_key(
        front,
        "owner"@,
    ) {
        seq![]
    } else {
        seq!["owner: "@]
    }) + kept_front(front) + (if caps.len() > 0 {
        seq!["capabilities: "@ + join_str(caps, ", "@)]
    } else {
        seq![]
    })
}

/// Each line followed by a newline.
pub open spec fn lines_text(ls: Seq<Seq<char>>) -> Seq<char>
    decreases ls.len(),
{
    if ls.len() == 0 {
        seq![]
    } else {
        lines_text(ls.drop_last()) + ls.last() + "\n"@
    }
}

/// The first line at or after `i` that opens a level-one heading.
pub open spec fn first_h1(lines: Seq<Seq<char>>, i: int) -> Option<int>
    decreases lines.len() - i,
{
    if i < 0 || i >= lines.len() {
        None
    } else if starts_with(lines[i], "# "@) {
        Some(i)
    } else {
        first_h1(lines, i + 1)
    }
}

/// What the template's level-one heading calls the document before ` — `
/// (`PRD` in `# PRD — {Name}`), or the type's name.
pub open spec fn title_prefix_of(lines: Seq<Seq<char>>, name: Seq<char>) -> Seq<char> {
    match first_h1(lines, 0) {
        Some(i) => {
            let h = lines[i].skip(2);
            match find(h, " — "@) {
                Some(k) => trim(h.take(k)),
                None => name,
            }
        },
        None => name,
    }
}

/// The document's level-one heading written in, over the template's or first.
pub open spec fn with_heading(lines: Seq<Seq<char>>, heading: Seq<char>) -> Seq<Seq<char>> {
    match first_h1(lines, 0) {
        Some(i) => lines.update(i, heading),
        None => lines.insert(0, heading),
    }
}

/// One question's answer under its prompt; nothing when unanswered.
pub open spec fn question_block(q: Question, answers: Seq<Answer>) -> Seq<char> {
    let t = answer_text_of(q, find_answer(answers, q.id@, 0));
    if t.len() > 0 {
        "**"@ + q.prompt@ + "**\n\n"@ + t + "\n\n"@
    } else {
        seq![]
    }
}

/// The answers to the questions that target the section `key`.
pub open spec fn block_of(qs: Seq<Question>, key: Seq<char>, answers: Seq<Answer>) -> Seq<char>
    decreases qs.len(),
{
    if qs.len() == 0 {
        seq![]
    } else {
        block_of(qs.drop_last(), key, answers) + if opt_view(qs.last().section) == Some(key) {
            question_block(qs.last(), answers)
        } else {
            seq![]
        }
    }
}

/// The line holding a wanted heading, at or after `i`, never inside a fence.
pub open spec fn heading_line_at(lines: Seq<Seq<char>>, wanted: Seq<Seq<char>>, i: int, in_fence: bool) -> Option<int>
    decreases lines.len() - i,
{
    if i < 0 || i >= lines.len() {
        None
    } else {
        let t = trim_start(lines[i]);
        if is_fence(lines[i]) {
            heading_line_at(lines, wanted, i + 1, !in_fence)
        } else {
            let h = leading_hashes(t);
            if !in_fence && 1 <= h <= 6 && h < t.len() && t[h as int] == ' ' && wanted.contains(
                normalize_heading(t.skip(h as int)),
            ) {
                Some(i)
            } else {
                heading_line_at(lines, wanted, i + 1, in_fence)
            }
        }
    }
}

/// Each declared section's answers written under its heading; a section the
/// template has no heading for appended, answered or not.
pub open spec fn place_sections(
    lines: Seq<Seq<char>>,
    secs: Seq<Section>,
    qs: Seq<Question>,
    answers: Seq<Answer>,
) -> (Seq<Seq<char>>, Seq<char>)
    decreases secs.len(),
{
    if secs.len() == 0 {
        (lines, seq![])
    } else {
        let (ls, app) = place_sections(lines, secs.drop_last(), qs, answers);
        let s = secs.last();
        let block = block_of(qs, s.key@, answers);
        match heading_line_at(ls, wanted_of(s), 0, false) {
            Some(i) => if block.len() > 0 {
                (ls.insert(i + 1, "\n"@ + trim_end(block)), app)
            } else {
                (ls, app)
            },
            None => (ls, app + "## "@ + s.title@ + "\n\n"@ + block),
        }
    }
}

/// The body of a generated document: the template's, titled, with the
/// answers in place, then what had no heading.
pub open spec fn body_of(ty: DocumentType, title: Seq<char>, answers: Seq<Answer>) -> Seq<char> {
    let lines0 = str_lines(raw_front_of(ty.template.body@).1);
    let heading = "# "@ + title_prefix_of(lines0, ty.name@) + " — "@ + trim(title);
    let placed = place_sections(with_heading(lines0, heading), ty.template.sections@, ty.template.questionnaire@, answers);
    trim_start(join_str(placed.0, "\n"@)) + "\n"@ + if placed.1.len() > 0 {
        "\n"@ + placed.1
    } else {
        seq![]
    }
}

/// A document built from a type's questionnaire and a set of answers: front
/// matter with the seeded capabilities, then the template body with the
/// answers written in.
pub open spec fn generate_of(ty: DocumentType, title: Seq<char>, answers: Seq<Answer>) -> Seq<char> {
    let caps = seeded_of(ty.template.questionnaire@, answers);
    "---\n"@ + lines_text(header_lines(raw_front_of(ty.template.body@).0, caps)) + "---\n\n"@ + body_of(
        ty,
        title,
        answers,
    )
}

fn copy_chars(v: &Vec<char>) -> (out: Vec<char>)
    ensures
        out@ == v@,
{
    let out = slice_of(v, 0, v.len());
    proof {
        assert(v@.subrange(0, v@.len() as int) == v@);
    }
    out
}

fn split_raw_front_matter(content: &str) -> (out: (Vec<Vec<char>>, Vec<char>))
    ensures
        (vec_views(out.0@), out.1@) == raw_front_of(content@),
{
    let all = chars_of(content);
    let rest = match strip_prefix_exec(&all, "---\n") {
        Some(r) => r,
        None => {
            return (Vec::new(), all);
        },
    };
    let close = chars_of("\n---\n");
    proof {
        reveal_strlit("\n---\n");
    }
    let end = match find_exec(&rest, &close) {
        Some(e) => e,
        None => {
            return (Vec::new(), all);
        },
    };
    proof {
        assert(crate::text::occurs_at(rest@, close@, end as int));
        assert(close@.len() == 5);
        assert(end + 5 <= rest@.len());
    }
    let rl = rest.len();
    let start: usize = end + 5;
    let front_text = string_of(&slice_of(&rest, 0, end));
    let front = lines_exec(front_text.as_str());
    let body = slice_of(&rest, start, rest.len());
    proof {
        assert(rest@.subrange(0, end as int) == rest@.take(end as int));
        assert(rest@.subrange(end + 5, rest@.len() as int) == rest@.skip(end + 5));
        assert(vec_views(Seq::<Vec<char>>::empty()) =~= Seq::<Seq<char>>::empty());
    }
    (front, body)
}

fn front_key_exec(line: &Vec<char>) -> (out: Vec<char>)
    ensures
        out@ == front_key_of(line@),
{
    let parts = split_char_exec(line, ':');
    proof {
        assert(vec_views(parts@)[0] == parts@[0]@);
    }
    trim_chars(&parts[0])
}

fn has_front_key_exec(front: &Vec<Vec<char>>, name: &str) -> (r: bool)
    ensures
        r == has_front_key(vec_views(front@), name@),
{
    let n = front.len();
    for i in 0..n
        invariant
            n == front@.len(),
            forall|k: int| 0 <= k < i ==> front_key_of(#[trigger] vec_views(front@)[k]) != name@,
    {
        let k = front_key_exec(&front[i]);
        if seq_eq(&k, &chars_of(name)) {
            proof {
                assert(vec_views(front@)[i as int] == front@[i as int]@);
            }
            return true;
        }
        proof {
            assert(vec_views(front@)[i as int] == front@[i as int]@);
        }
    }
    false
}

fn push_lines_text(out: &mut Vec<char>, ls: &Vec<Vec<char>>)
    ensures
        final(out)@ == old(out)@ + lines_text(vec_views(ls@)),
{
    let ghost start = out@;
    let n = ls.len();
    proof {
        assert(vec_views(ls@).take(0) =~= Seq::<Seq<char>>::empty());
        assert(start + lines_text(Seq::<Seq<char>>::empty()) =~= start);
    }
    for i in 0..n
        invariant
            n == ls@.len(),
            out@ == start + lines_text(vec_views(ls@).take(i as int)),
    {
        proof {
            assert(vec_views(ls@).take(i + 1).drop_last() == vec_views(ls@).take(i as int));
            assert(vec_views(ls@).take(i + 1).last() == ls@[i as int]@);
        }
        push_all(out, &ls[i]);
        out.push('\n');
        proof {
            reveal_strlit("\n");
            assert(out@ =~= start + lines_text(vec_views(ls@).take(i + 1)));
        }
    }
    proof {
        assert(vec_views(ls@).take(n as int) == vec_views(ls@));
    }
}

fn header_lines_exec(front: &Vec<Vec<char>>, caps: &Vec<String>) -> (out: Vec<Vec<char>>)
    ensures
        vec_views(out@) == header_lines(vec_views(front@), string_views(caps@)),
{
    let ghost fv = vec_views(front@);
    let mut out: Vec<Vec<char>> = Vec::new();
    let has_status = has_front_key_exec(front, "status");
    let has_owner = has_front_key_exec(front, "owner");
    if !has_status {
        out.push(chars_of("status: draft"));
    }
    if !has_owner {
        out.push(chars_of("owner: "));
    }
    let ghost lead = vec_views(out@);
    proof {
        assert(lead =~= (if has_front_key(fv, "status"@) { seq![] } else { seq!["status: draft"@] }) + (
        if has_front_key(fv, "owner"@) {
            seq![]
        } else {
            seq!["owner: "@]
        }));
        reveal(Seq::filter);
        assert(fv.take(0) =~= Seq::<Seq<char>>::empty());
        assert(lead + kept_front(fv.take(0)) =~= lead);
    }
    let n = front.len();
    for i in 0..n
        invariant
            n == front@.len(),
            fv == vec_views(front@),
            vec_views(out@) == lead + kept_front(fv.take(i as int)),
    {
        proof {
            reveal(Seq::filter);
            assert(fv.take(i + 1).drop_last() == fv.take(i as int));
            assert(fv.take(i + 1).last() == front@[i as int]@);
        }
        let k = front_key_exec(&front[i]);
        if !seq_eq(&k, &chars_of("capabilities")) {
            let ghost before = vec_views(out@);
            out.push(copy_chars(&front[i]));
            proof {
                assert(vec_views(out@) =~= before.push(front@[i as int]@));
            }
        }
    }
    proof {
        assert(fv.take(n as int) == fv);
    }
    if caps.len() > 0 {
        let mut line = chars_of("capabilities: ");
        let j = join_strings(caps, ", ");
        push_str(&mut line, j.as_str());
        let ghost before = vec_views(out@);
        out.push(line);
        proof {
            assert(caps@.map_values(|s: String| s@) == string_views(caps@));
            assert(vec_views(out@) =~= before.push("capabilities: "@ + join_str(string_views(caps@), ", "@)));
        }
    } else {
        proof {
            assert(vec_views(out@) =~= vec_views(out@) + Seq::<Seq<char>>::empty());
        }
    }
    out
}

fn first_h1_exec(lines: &Vec<Vec<char>>) -> (out: Option<usize>)
    ensures
        match out {
            Some(i) => first_h1(vec_views(lines@), 0) == Some(i as int) && i < lines@.len() && starts_with(
                lines@[i as int]@,
                "# "@,
            ),
            None => first_h1(vec_views(lines@), 0) is None,
        },
{
    let n = lines.len();
    let mut i: usize = 0;
    while i < n
        invariant
            n == lines@.len(),
            i <= n,
            first_h1(vec_views(lines@), 0) == first_h1(vec_views(lines@), i as int),
        decreases n - i,
    {
        proof {
            assert(vec_views(lines@)[i as int] == lines@[i as int]@);
        }
        if starts_with_exec(&lines[i], "# ") {
            return Some(i);
        }
        i = i + 1;
    }
    None
}

fn title_prefix_exec(lines: &Vec<Vec<char>>, name: &str) -> (out: Vec<char>)
    ensures
        out@ == title_prefix_of(vec_views(lines@), name@),
{
    match first_h1_exec(lines) {
        Some(i) => {
            let l = &lines[i];
            proof {
                assert(vec_views(lines@)[i as int] == l@);
                reveal_strlit("# ");
                assert(l@.len() >= 2);
            }
            let h = slice_of(l, 2, l.len());
            proof {
                assert(l@.subrange(2, l@.len() as int) == l@.skip(2));
            }
            let sep = chars_of(" — ");
            match find_exec(&h, &sep) {
                Some(k) => {
                    let p = slice_of(&h, 0, k);
                    proof {
                        assert(h@.subrange(0, k as int) == h@.take(k as int));
                    }
                    trim_chars(&p)
                },
                None => chars_of(name),
            }
        },
        None => chars_of(name),
    }
}

fn block_exec(qs: &Vec<Question>, key: &str, answers: &[Answer]) -> (out: Vec<char>)
    ensures
        out@ == block_of(qs@, key@, answers@),
{
    let n = qs.len();
    let mut out: Vec<char> = Vec::new();
    for i in 0..n
        invariant
            n == qs@.len(),
            out@ == block_of(qs@.take(i as int), key@, answers@),
    {
        proof {
            assert(qs@.take(i + 1).drop_last() == qs@.take(i as int));
            assert(qs@.take(i + 1).last() == qs@[i as int]);
        }
        let q = &qs[i];
        let targets = match &q.section {
            Some(s) => str_eq(s.as_str(), key),
            None => false,
        };
        let ghost before = out@;
        if targets {
            let a = find_answer_exec(answers, q.id.as_str());
            let t = answer_text(q, a);
            if !t.as_str().is_empty() {
                push_str(&mut out, "**");
                push_str(&mut out, q.prompt.as_str());
                push_str(&mut out, "**\n\n");
                push_str(&mut out, t.as_str());
                push_str(&mut out, "\n\n");
            }
            proof {
                assert(out@ =~= before + question_block(*q, answers@));
            }
        } else {
            proof {
                assert(out@ =~= before + Seq::<char>::empty());
            }
        }
    }
    proof {
        assert(qs@.take(n as int) == qs@);
    }
    out
}

fn contains_chars(v: &Vec<Vec<char>>, s: &Vec<char>) -> (r: bool)
    ensures
        r == vec_views(v@).contains(s@),
{
    let n = v.len();
    for i in 0..n
        invariant
            n == v@.len(),
            forall|k: int| 0 <= k < i ==> v@[k]@ != s@,
    {
        if seq_eq(&v[i], s) {
            proof {
                assert(vec_views(v@)[i as int] == s@);
            }
            return true;
        }
    }
    proof {
        if vec_views(v@).contains(s@) {
            let k = choose|k: int| 0 <= k < vec_views(v@).len() && vec_views(v@)[k] == s@;
            assert(vec_views(v@)[k] == v@[k]@);
        }
    }
    false
}

fn wanted_exec(s: &Section) -> (out: Vec<Vec<char>>)
    ensures
        vec_views(out@) == wanted_of(*s),
{
    let titles = s.titles();
    let n = titles.len();
    let mut out: Vec<Vec<char>> = Vec::new();
    let ghost tv = titles@.map_values(|t: String| t@);
    for i in 0..n
        invariant
            n == titles@.len(),
            tv == titles@.map_values(|t: String| t@),
            vec_views(out@) == tv.take(i as int).map_values(|t: Seq<char>| normalize_heading(t)),
    {
        let w = normalize_heading_exec(&chars_of(titles[i].as_str()));
        let ghost before = vec_views(out@);
        out.push(w);
        proof {
            assert(vec_views(out@) =~= before.push(normalize_heading(tv[i as int])));
            assert(tv.take(i + 1).map_values(|t: Seq<char>| normalize_heading(t)) =~= tv.take(i as int).map_values(
                |t: Seq<char>| normalize_heading(t),
            ).push(normalize_heading(tv[i as int])));
        }
    }
    proof {
        assert(tv.take(n as int) == tv);
    }
    out
}

fn heading_line_exec(lines: &Vec<Vec<char>>, wanted: &Vec<Vec<char>>) -> (out: Option<usize>)
    ensures
        match out {
            Some(i) => heading_line_at(vec_views(lines@), vec_views(wanted@), 0, false) == Some(i as int) && i
                < lines@.len(),
            None => heading_line_at(vec_views(lines@), vec_views(wanted@), 0, false) is None,
        },
{
    let ghost lv = vec_views(lines@);
    let ghost wv = vec_views(wanted@);
    let n = lines.len();
    let mut in_fence = false;
    let mut i: usize = 0;
    while i < n
        invariant
            n == lines@.len(),
            lv == vec_views(lines@),
            wv == vec_views(wanted@),
            i <= n,
            heading_line_at(lv, wv, 0, false) == heading_line_at(lv, wv, i as int, in_fence),
        decreases n - i,
    {
        let line = &lines[i];
        proof {
            assert(lv[i as int] == line@);
        }
        if is_fence_exec(line) {
            in_fence = !in_fence;
        } else {
            let st = trim_start_at(line, 0);
            let t = slice_of(line, st, line.len());
            proof {
                assert(line@.skip(0) == line@);
                assert(line@.subrange(st as int, line@.len() as int) == line@.skip(st as int));
            }
            let h = leading_hashes_exec(&t);
            if !in_fence && 1 <= h && h <= 6 && h < t.len() && t[h] == ' ' {
                let rest = slice_of(&t, h, t.len());
                proof {
                    assert(t@.subrange(h as int, t@.len() as int) == t@.skip(h as int));
                }
                let norm = normalize_heading_exec(&rest);
                if contains_chars(wanted, &norm) {
                    return Some(i);
                }
            }
        }
        i = i + 1;
    }
    None
}

/// `parts.join(sep)` over character vectors.
fn join_chars(parts: &Vec<Vec<char>>, sep: &str) -> (out: Vec<char>)
    ensures
        out@ == join_str(vec_views(parts@), sep@),
{
    let ghost pv = vec_views(parts@);
    let n = parts.len();
    let mut out: Vec<char> = Vec::new();
    for i in 0..n
        invariant
            n == parts@.len(),
            pv == vec_views(parts@),
            out@ == join_str(pv.take(i as int), sep@),
    {
        proof {
            assert(pv.take(i + 1).drop_last() == pv.take(i as int));
            assert(pv.take(i + 1).last() == parts@[i as int]@);
            if i == 0 {
                assert(pv.take(1)[0] == parts@[0]@);
                assert(out@ == Seq::<char>::empty());
            }
        }
        if i > 0 {
            push_str(&mut out, sep);
        }
        let ghost before = out@;
        push_all(&mut out, &parts[i]);
        proof {
            if i == 0 {
                assert(out@ =~= parts@[0]@);
            }
        }
    }
    proof {
        assert(pv.take(n as int) == pv);
    }
    out
}

/// Build a document from a type's questionnaire and a set of answers.
///
/// The questionnaire fills the type's template; it does not replace it. The
/// template body is the document: its front matter gains the seeded
/// `capabilities`, its level-one heading names the title, and each answer is
/// written under the heading of the section its question targets, under its
/// prompt. A declared section the template has no heading for is appended,
/// answered or not.
pub fn generate(ty: &DocumentType, title: &str, answers: &[Answer]) -> (out: String)
    ensures
        out@ == generate_of(*ty, title@, answers@),
{
    let capabilities = seeded_capabilities(ty, answers);
    let (front, body) = split_raw_front_matter(ty.template.body.as_str());
    let mut out: Vec<char> = Vec::new();
    push_str(&mut out, "---\n");
    let hl = header_lines_exec(&front, &capabilities);
    push_lines_text(&mut out, &hl);
    push_str(&mut out, "---\n\n");
    let ghost head = out@;

    let body_s = string_of(&body);
    let mut lines = lines_exec(body_s.as_str());
    let ghost lines0 = vec_views(lines@);
    let prefix = title_prefix_exec(&lines, ty.name.as_str());
    let mut heading = chars_of("# ");
    push_all(&mut heading, &prefix);
    push_str(&mut heading, " — ");
    let tt = trim_chars(&chars_of(title));
    push_all(&mut heading, &tt);
    match first_h1_exec(&lines) {
        Some(i) => {
            lines.set(i, heading);
            proof {
                assert(vec_views(lines@) =~= lines0.update(i as int, heading@));
            }
        },
        None => {
            lines.insert(0, heading);
            proof {
                assert(vec_views(lines@) =~= lines0.insert(0, heading@));
            }
        },
    }
    let ghost lines1 = vec_views(lines@);
    proof {
        assert(lines1 == with_heading(lines0, "# "@ + title_prefix_of(lines0, ty.name@) + " — "@ + trim(title@)));
    }
    let qs = &ty.template.questionnaire;
    let secs = &ty.template.sections;
    let ns = secs.len();
    let mut appended: Vec<char> = Vec::new();
    proof {
        assert(secs@.take(0) =~= Seq::<Section>::empty());
    }
    for k in 0..ns
        invariant
            ns == secs@.len(),
            (vec_views(lines@), appended@) == place_sections(lines1, secs@.take(k as int), qs@, answers@),
    {
        proof {
            assert(secs@.take(k + 1).drop_last() == secs@.take(k as int));
            assert(secs@.take(k + 1).last() == secs@[k as int]);
        }
        let s = &secs[k];
        let block = block_exec(qs, s.key.as_str(), answers);
        let wanted = wanted_exec(s);
        match heading_line_exec(&lines, &wanted) {
            Some(i) => {
                if block.len() > 0 {
                    let e = trim_end_at(&block, 0, block.len());
                    let mut ins = chars_of("\n");
                    push_all(&mut ins, &slice_of(&block, 0, e));
                    let ghost before = vec_views(lines@);
                    let nl = lines.len();
                    lines.insert(i + 1, ins);
                    proof {
                        reveal_strlit("\n");
                        assert(block@.subrange(0, block@.len() as int) == block@);
                        assert(vec_views(lines@) =~= before.insert(i + 1, "\n"@ + trim_end(block@)));
                    }
                }
            },
            None => {
                push_str(&mut appended, "## ");
                push_str(&mut appended, s.title.as_str());
                push_str(&mut appended, "\n\n");
                push_all(&mut appended, &block);
            },
        }
    }
    proof {
        assert(secs@.take(ns as int) == secs@);
    }
    let joined = join_chars(&lines, "\n");
    let st = trim_start_at(&joined, 0);
    let trimmed = slice_of(&joined, st, joined.len());
    proof {
        assert(joined@.skip(0) == joined@);
        assert(joined@.subrange(st as int, joined@.len() as int) == joined@.skip(st as int));
    }
    push_all(&mut out, &trimmed);
    out.push('\n');
    if appended.len() > 0 {
        out.push('\n');
        push_all(&mut out, &appended);
    }
    proof {
        reveal_strlit("\n");
        assert(out@ =~= generate_of(*ty, title@, answers@));
    }
    string_of(&out)
}

/// A yes/no question is written as its prompt and `Yes` when the person
/// answered yes, `No` when they answered no, and not at all when it was left
/// unanswered.
pub proof fn law_a_yes_or_no_answer_is_written_as_given(q: Question, answers: Seq<Answer>)
    requires
        q.kind == QuestionKind::Bool,
    ensures
        match find_answer(answers, q.id@, 0) {
            Some(a) => match a.flag {
                Some(true) => question_block(q, answers) == "**"@ + q.prompt@ + "**\n\n"@ + "Yes"@ + "\n\n"@,
                Some(false) => question_block(q, answers) == "**"@ + q.prompt@ + "**\n\n"@ + "No"@ + "\n\n"@,
                None => question_block(q, answers) == Seq::<char>::empty(),
            },
            None => question_block(q, answers) == Seq::<char>::empty(),
        },
{
    reveal_strlit("Yes");
    reveal_strlit("No");
    assert("Yes"@.len() == 3);
    assert("No"@.len() == 2);
}

/// What any answer is written as: a yes/no answer as `Yes` or `No`; a
/// several-choice answer as its choices in order, each but the last followed
/// by `, `; any other as its text without surrounding whitespace; a question
/// left unanswered as nothing.
pub proof fn law_an_answer_is_written_as_given(q: Question, a: Answer)
    ensures
        q.kind == QuestionKind::Bool && a.flag == Some(true) ==> answer_text_of(q, Some(a)) =~= seq!['Y', 'e', 's'],
        q.kind == QuestionKind::Bool && a.flag == Some(false) ==> answer_text_of(q, Some(a)) =~= seq!['N', 'o'],
        q.kind == QuestionKind::Bool && a.flag is None ==> answer_text_of(q, Some(a)).len() == 0,
        q.kind == QuestionKind::Multi ==> match a.choices {
            Some(c) => answer_text_of(q, Some(a)) == join_str(string_views(c@), ", "@) && (c@.len() == 1
                ==> answer_text_of(q, Some(a)) == c@[0]@),
            None => answer_text_of(q, Some(a)).len() == 0,
        },
        q.kind != QuestionKind::Bool && q.kind != QuestionKind::Multi ==> match a.text {
            Some(t) => answer_text_of(q, Some(a)) == trim(t@),
            None => answer_text_of(q, Some(a)).len() == 0,
        },
        answer_text_of(q, None).len() == 0,
{
    reveal_strlit("Yes");
    reveal_strlit("No");
    if q.kind == QuestionKind::Multi {
        match a.choices {
            Some(c) => {
                if c@.len() == 1 {
                    let v = string_views(c@);
                    assert(v.drop_last().len() == 0);
                    reveal_with_fuel(join_str, 2);
                    assert(join_str(v.drop_last(), ", "@) =~= Seq::<char>::empty());
                }
            },
            None => {},
        }
    }
}

} // verus!
