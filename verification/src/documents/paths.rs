//! Where a document goes in a repository: `docs/<type>/<slug>.md`, served as a
//! suggestion rather than imposed.

use vstd::prelude::*;

use crate::text::{
    chars_of, is_alnum, is_alnum_char, lower, lower_seq, push_str, slice_of, string_of, to_lower, trim,
    trim_chars, trim_end_char,
};

verus! {

/// Long enough for any title worth reading, short enough to be a filename.
pub const SLUG_MAX: usize = 60;

/// The maximal runs of ASCII letters and digits in `s`, in order.
pub open spec fn words(s: Seq<char>) -> Seq<Seq<char>>
    decreases s.len(),
{
    if s.len() == 0 {
        seq![]
    } else {
        let w = words(s.drop_last());
        let c = s.last();
        if !is_alnum(c) {
            w
        } else if s.len() >= 2 && is_alnum(s[s.len() - 2]) {
            w.update(w.len() - 1, w.last().push(c))
        } else {
            w.push(seq![c])
        }
    }
}

/// The words joined by one separator each.
pub open spec fn join(ws: Seq<Seq<char>>, sep: char) -> Seq<char>
    decreases ws.len(),
{
    if ws.len() == 0 {
        seq![]
    } else if ws.len() == 1 {
        ws[0]
    } else {
        join(ws.drop_last(), sep) + seq![sep] + ws.last()
    }
}

/// The slug of a title: its words, lower-cased and joined by hyphens, cut to
/// [`SLUG_MAX`] characters with no hyphen left hanging, and `untitled` when
/// nothing in it is a letter or a digit.
pub open spec fn slug_of(title: Seq<char>) -> Seq<char> {
    let joined = lower_seq(join(words(trim(title)), '-'));
    let cut = trim_end_char(joined.take(if joined.len() < SLUG_MAX { joined.len() as int } else { SLUG_MAX as int }), '-');
    if cut.len() == 0 {
        "untitled"@
    } else {
        cut
    }
}

pub open spec fn is_prefix(a: Seq<char>, b: Seq<char>) -> bool {
    a.len() <= b.len() && b.take(a.len() as int) == a
}

pub proof fn lemma_words_nonempty_last(s: Seq<char>)
    requires
        s.len() > 0,
        is_alnum(s.last()),
    ensures
        words(s).len() > 0,
        words(s).last().len() > 0,
        is_alnum(words(s).last().last()),
    decreases s.len(),
{
    if s.len() >= 2 && is_alnum(s[s.len() - 2]) {
        lemma_words_nonempty_last(s.drop_last());
    }
}

pub proof fn lemma_join_extend(ws: Seq<Seq<char>>, sep: char, c: char)
    requires
        ws.len() > 0,
    ensures
        join(ws.update(ws.len() - 1, ws.last().push(c)), sep) == join(ws, sep).push(c),
{
    let w2 = ws.update(ws.len() - 1, ws.last().push(c));
    if ws.len() == 1 {
    } else {
        assert(w2.drop_last() == ws.drop_last());
        assert(join(w2, sep) == join(ws.drop_last(), sep) + seq![sep] + ws.last().push(c));
    }
}

pub proof fn lemma_join_push(ws: Seq<Seq<char>>, sep: char, w: Seq<char>)
    requires
        ws.len() > 0,
    ensures
        join(ws.push(w), sep) == join(ws, sep) + seq![sep] + w,
{
    assert(ws.push(w).drop_last() == ws);
}

/// The joined words of a prefix are a prefix of the joined words of the whole.
proof fn lemma_join_words_prefix(s: Seq<char>, i: int)
    requires
        0 <= i <= s.len(),
    ensures
        is_prefix(join(words(s.take(i)), '-'), join(words(s), '-')),
    decreases s.len() - i,
{
    if i < s.len() {
        lemma_join_words_prefix(s, i + 1);
        let p = s.take(i);
        let q = s.take(i + 1);
        assert(q.drop_last() == p);
        let c = q.last();
        let a = join(words(p), '-');
        let b = join(words(q), '-');
        if !is_alnum(c) {
        } else if q.len() >= 2 && is_alnum(q[q.len() - 2]) {
            lemma_words_nonempty_last(p);
            lemma_join_extend(words(p), '-', c);
            assert(b == a.push(c));
            assert(b.take(a.len() as int) == a);
        } else if words(p).len() == 0 {
            assert(words(q) == seq![seq![c]]);
            assert(a.len() == 0);
            assert(b.take(0) == a);
        } else {
            lemma_join_push(words(p), '-', seq![c]);
            assert(b.take(a.len() as int) == a);
        }
        let c2 = join(words(s), '-');
        assert(a.len() <= b.len());
        assert(b.take(a.len() as int) == a);
        assert(c2.take(b.len() as int) == b);
        assert(c2.take(b.len() as int).take(a.len() as int) =~= c2.take(a.len() as int));
    } else {
        assert(s.take(i) == s);
        let x = join(words(s), '-');
        assert(x.take(x.len() as int) =~= x);
    }
}

/// Every word is nonempty, so joined words are empty exactly when there are
/// none, and they end in a letter or digit.
pub proof fn lemma_join_shape(s: Seq<char>)
    ensures
        (join(words(s), '-').len() == 0) == (words(s).len() == 0),
        join(words(s), '-').len() > 0 ==> is_alnum(join(words(s), '-').last()),
        forall|k: int| 0 <= k < join(words(s), '-').len() ==> (is_alnum(#[trigger] join(words(s), '-')[k]) || join(words(s), '-')[k] == '-'),
    decreases s.len(),
{
    if s.len() > 0 {
        lemma_join_shape(s.drop_last());
        let p = s.drop_last();
        let c = s.last();
        if !is_alnum(c) {
        } else if s.len() >= 2 && is_alnum(s[s.len() - 2]) {
            lemma_words_nonempty_last(p);
            lemma_join_extend(words(p), '-', c);
        } else if words(p).len() == 0 {
            assert(words(s) == seq![seq![c]]);
            assert(join(words(s), '-') == seq![c]);
        } else {
            lemma_join_push(words(p), '-', seq![c]);
        }
    }
}

proof fn lemma_trim_end_dash_noop(s: Seq<char>)
    requires
        s.len() == 0 || s.last() != '-',
    ensures
        trim_end_char(s, '-') == s,
{
    reveal_with_fuel(trim_end_char, 2);
}

proof fn lemma_lower_prefix(a: Seq<char>, b: Seq<char>)
    requires
        is_prefix(a, b),
    ensures
        is_prefix(lower_seq(a), lower_seq(b)),
{
    assert(lower_seq(b).take(a.len() as int) =~= lower_seq(a));
}

/// A filename-safe slug of a title.
///
/// A RUN of anything that is not a letter or digit becomes one hyphen, the
/// ends are trimmed, the result is capped, and a title with nothing sluggable
/// in it becomes `untitled` rather than an empty filename.
pub fn slug(title: &str) -> (out: String)
    ensures
        out@ == slug_of(title@),
{
    let all = chars_of(title);
    let t = trim_chars(&all);
    let ghost ts = t@;
    let mut out: Vec<char> = Vec::new();
    let mut pending_gap = false;
    let n = t.len();
    let mut i: usize = 0;
    let mut broke = false;
    while i < n
        invariant
            n == ts.len(),
            t@ == ts,
            0 <= i <= n,
            broke ==> i == n,
            !broke ==> out@ == lower_seq(join(words(ts.take(i as int)), '-')),
            !broke ==> pending_gap == (i > 0 && !is_alnum(ts[i - 1])),
            !broke ==> (i > 0 && is_alnum(ts[i - 1]) ==> out@.len() > 0),
            out@.len() <= SLUG_MAX,
            out@.len() > 0 ==> is_alnum(out@.last()),
            broke ==> is_prefix(out@, lower_seq(join(words(ts), '-'))),
            broke ==> (lower_seq(join(words(ts), '-')).len() > SLUG_MAX),
            broke ==> (out@.len() == SLUG_MAX || (out@.len() == SLUG_MAX - 1 && out@.len() > 0 && lower_seq(join(words(ts), '-'))[out@.len() as int] == '-')),
        decreases n - i,
    {
        let ch = t[i];
        let ghost p = ts.take(i as int);
        let ghost q = ts.take(i + 1);
        proof {
            assert(q.drop_last() == p);
            assert(q.last() == ch);
            assert(q.len() >= 2 ==> q[q.len() - 2] == ts[i - 1]);
            assert(p.len() > 0 ==> p.last() == ts[i - 1]);
            lemma_join_shape(p);
            lemma_join_shape(q);
            lemma_join_words_prefix(ts, i + 1);
            lemma_lower_prefix(join(words(q), '-'), join(words(ts), '-'));
        }
        if !is_alnum_char(ch) {
            pending_gap = true;
            i += 1;
            continue;
        }
        let width: usize = if pending_gap && out.len() > 0 { 2 } else { 1 };
        proof {
            let a = join(words(p), '-');
            let b = join(words(q), '-');
            assert(out@.len() == a.len());
            if q.len() >= 2 && is_alnum(q[q.len() - 2]) {
                lemma_words_nonempty_last(p);
                lemma_join_extend(words(p), '-', ch);
                assert(b == a.push(ch));
                assert(!pending_gap);
                assert(width == 1);
            } else if words(p).len() == 0 {
                assert(words(q) == seq![seq![ch]]);
                assert(b == seq![ch]);
                assert(a.len() == 0);
                assert(width == 1);
            } else {
                lemma_join_push(words(p), '-', seq![ch]);
                assert(words(q) == words(p).push(seq![ch]));
                assert(b.len() == a.len() + 2);
                assert(a.len() > 0);
                assert(i > 0);
                assert(pending_gap);
                assert(width == 2);
            }
            assert(lower_seq(b).len() == out@.len() + width);
        }
        if out.len() + width > SLUG_MAX {
            proof {
                let b = join(words(q), '-');
                let j = lower_seq(join(words(ts), '-'));
                assert(lower_seq(b).take(out@.len() as int) =~= out@) by {
                    if width == 1 {
                        let a = join(words(p), '-');
                        if q.len() >= 2 && is_alnum(q[q.len() - 2]) {
                            assert(b == a.push(ch));
                        } else {
                            assert(b == seq![ch]);
                        }
                    } else {
                        lemma_join_push(words(p), '-', seq![ch]);
                    }
                }
                assert(j.take(out@.len() as int) =~= lower_seq(b).take(out@.len() as int));
                if width == 2 {
                    lemma_join_push(words(p), '-', seq![ch]);
                    assert(lower_seq(b)[out@.len() as int] == '-');
                    assert(j[out@.len() as int] == lower_seq(b)[out@.len() as int]);
                }
            }
            broke = true;
            i = n;
            continue;
        }
        if pending_gap && out.len() > 0 {
            out.push('-');
        }
        pending_gap = false;
        out.push(to_lower(ch));
        proof {
            let a = join(words(p), '-');
            let b = join(words(q), '-');
            if q.len() >= 2 && is_alnum(q[q.len() - 2]) {
                assert(b == a.push(ch));
                assert(lower_seq(b) =~= lower_seq(a).push(lower(ch)));
            } else if words(p).len() == 0 {
                assert(lower_seq(b) =~= seq![lower(ch)]);
                assert(a.len() == 0);
            } else {
                lemma_join_push(words(p), '-', seq![ch]);
                assert(lower_seq(b) =~= lower_seq(a).push('-').push(lower(ch)));
            }
        }
        i += 1;
    }
    proof {
        let j = lower_seq(join(words(ts), '-'));
        lemma_join_shape(ts);
        if !broke {
            assert(ts.take(n as int) == ts);
        }
        let k = if j.len() < SLUG_MAX { j.len() as int } else { SLUG_MAX as int };
        if broke {
            if out@.len() == SLUG_MAX {
                assert(k == out@.len());
                assert(j.take(out@.len() as int) == out@);
                assert(j.take(k) == out@);
            } else {
                assert(k == out@.len() + 1);
                assert(j.take(out@.len() as int) == out@);
                assert forall|m: int| 0 <= m < k implies j.take(k)[m] == out@.push('-')[m] by {
                    if m < out@.len() {
                        assert(j.take(out@.len() as int)[m] == j[m]);
                    }
                }
                assert(j.take(k) =~= out@.push('-'));
                assert(out@.push('-').drop_last() == out@);
                assert(trim_end_char(j.take(k), '-') == trim_end_char(out@, '-'));
            }
        } else {
            assert(j.take(k) =~= j);
        }
        lemma_trim_end_dash_noop(out@);
        assert(trim_end_char(j.take(k), '-') == out@);
        assert(ts == trim(title@));
        assert(out@.take(out@.len() as int) =~= out@);
    }
    // A cut can still land right after a separator.
    let mut end = out.len();
    while end > 0 && out[end - 1] == '-'
        invariant
            end <= out@.len(),
            trim_end_char(out@, '-') == trim_end_char(out@.take(end as int), '-'),
        decreases end,
    {
        assert(out@.take(end as int).drop_last() == out@.take(end - 1));
        end -= 1;
    }
    let cut = slice_of(&out, 0, end);
    assert(out@.subrange(0, end as int) == out@.take(end as int));
    proof {
        lemma_trim_end_dash_noop(out@.take(end as int));
        assert(cut@ == trim_end_char(out@, '-'));
    }
    if cut.len() == 0 {
        return "untitled".to_owned();
    }
    string_of(&cut)
}

/// `docs/<type>/<slug>.md` for a document of this type with this title.
pub fn suggested_path(type_key: &str, title: &str) -> (out: String)
    ensures
        out@ == "docs/"@ + type_key@ + "/"@ + slug_of(title@) + ".md"@,
{
    let mut v: Vec<char> = Vec::new();
    push_str(&mut v, "docs/");
    push_str(&mut v, type_key);
    push_str(&mut v, "/");
    let s = slug(title);
    push_str(&mut v, s.as_str());
    push_str(&mut v, ".md");
    string_of(&v)
}

} // verus!
