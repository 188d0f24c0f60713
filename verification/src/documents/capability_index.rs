//! Why the `capabilities` column can be an index over a generated document's
//! text: reading the capabilities back out of what `generate` wrote gives
//! the capabilities it seeded.

use vstd::prelude::*;

use crate::documents::model::DocumentType;
use crate::documents::intake::{
    Answer,
    capabilities_line, capability_list, declared_capabilities_of, is_quote, trim_quotes_end, trim_quotes_start, front_key_of, front_matter_of, generate_of,
    has_front_key, header_lines, kept_front, lines_text, list_item, list_items, raw_front_of, seeded_of,
};
use crate::text::{
    find, find_from_spec, is_ws, occurs_at, split_char, starts_with, str_lines, strip_cr, strip_prefix, trim,
    trim_end, trim_end_char, trim_start, trim_start_char, join_str, lemma_split_char_nonempty,
};

verus! {

/// `s` holds no `c`.
pub open spec fn free_of(s: Seq<char>, c: char) -> bool {
    forall|i: int| 0 <= i < s.len() ==> s[i] != c
}

proof fn lemma_split_append(s: Seq<char>, t: Seq<char>, c: char)
    requires
        free_of(t, c),
    ensures
        split_char(s + t, c) == split_char(s, c).update(
            split_char(s, c).len() - 1,
            split_char(s, c).last() + t,
        ),
    decreases t.len(),
{
    lemma_split_char_nonempty(s, c);
    let q = split_char(s, c);
    if t.len() == 0 {
        assert(s + t == s);
        assert(q.last() + t == q.last());
        assert(q.update(q.len() - 1, q.last()) =~= q);
    } else {
        let t0 = t.drop_last();
        let x = t.last();
        lemma_split_append(s, t0, c);
        assert((s + t).drop_last() == s + t0);
        assert((s + t).last() == x);
        let p = split_char(s + t0, c);
        assert(p == q.update(q.len() - 1, q.last() + t0));
        assert(split_char(s + t, c) == p.update(p.len() - 1, p.last().push(x)));
        assert(p.last() == q.last() + t0);
        assert(p.len() == q.len());
        assert(p.last().push(x) =~= q.last() + t);
        assert(p.update(p.len() - 1, p.last().push(x)) =~= q.update(q.len() - 1, q.last() + t));
    }
}

proof fn lemma_split_sep(s: Seq<char>, t: Seq<char>, c: char)
    requires
        free_of(t, c),
    ensures
        split_char(s.push(c) + t, c) == split_char(s, c).push(t),
{
    lemma_split_append(s.push(c), t, c);
    assert(s.push(c).drop_last() == s);
    let q = split_char(s.push(c), c);
    assert(q == split_char(s, c).push(seq![]));
    assert(seq![] + t =~= t);
    assert(q.update(q.len() - 1, q.last() + t) =~= split_char(s, c).push(t));
}

proof fn lemma_split_plain(t: Seq<char>, c: char)
    requires
        free_of(t, c),
    ensures
        split_char(t, c) == seq![t],
{
    lemma_split_append(seq![], t, c);
    assert(Seq::<char>::empty() + t =~= t);
    assert(split_char(Seq::<char>::empty(), c) == seq![Seq::<char>::empty()]);
    assert(seq![Seq::<char>::empty()].update(0, Seq::<char>::empty() + t) =~= seq![t]);
}

/// Every line free of `\n`.
pub open spec fn single_lines(ls: Seq<Seq<char>>) -> bool {
    forall|k: int| 0 <= k < ls.len() ==> free_of(#[trigger] ls[k], '\n')
}

proof fn lemma_lines_text_ends(ls: Seq<Seq<char>>)
    requires
        ls.len() > 0,
    ensures
        lines_text(ls).len() > 0,
        lines_text(ls) == lines_text(ls).drop_last().push('\n'),
        lines_text(ls).drop_last() == lines_text(ls.drop_last()) + ls.last(),
{
    reveal_strlit("\n");
    let a = lines_text(ls.drop_last()) + ls.last();
    assert(lines_text(ls) == a + "\n"@);
    assert(lines_text(ls) =~= a.push('\n'));
    assert(a.push('\n').drop_last() =~= a);
}

proof fn lemma_split_lines_text(ls: Seq<Seq<char>>)
    requires
        ls.len() > 0,
        single_lines(ls),
    ensures
        split_char(lines_text(ls).drop_last(), '\n') == ls,
    decreases ls.len(),
{
    lemma_lines_text_ends(ls);
    let d = ls.drop_last();
    let x = ls.last();
    assert(free_of(ls[ls.len() - 1], '\n'));
    if d.len() == 0 {
        assert(lines_text(d) == Seq::<char>::empty());
        assert(lines_text(ls).drop_last() =~= x);
        lemma_split_plain(x, '\n');
        assert(ls =~= seq![x]);
    } else {
        assert forall|k: int| 0 <= k < d.len() implies free_of(#[trigger] d[k], '\n') by {
            assert(d[k] == ls[k]);
        }
        lemma_split_lines_text(d);
        lemma_lines_text_ends(d);
        let a = lines_text(d).drop_last();
        assert(lines_text(ls).drop_last() == a.push('\n') + x);
        lemma_split_sep(a, x, '\n');
        assert(d.push(x) =~= ls);
    }
}

proof fn lemma_find_from_first(s: Seq<char>, p: Seq<char>, i: int, j: int)
    requires
        0 <= j <= i,
        occurs_at(s, p, i),
        forall|q: int| 0 <= q < i ==> !occurs_at(s, p, q),
    ensures
        find_from_spec(s, p, j) == Some(i),
    decreases i - j,
{
    if j < i {
        assert(!occurs_at(s, p, j));
        lemma_find_from_first(s, p, i, j + 1);
    }
}

proof fn lemma_find_first(s: Seq<char>, p: Seq<char>, i: int)
    requires
        occurs_at(s, p, i),
        forall|q: int| 0 <= q < i ==> !occurs_at(s, p, q),
    ensures
        find(s, p) == Some(i),
{
    lemma_find_from_first(s, p, i, 0);
}

proof fn lemma_lines_text_add(a: Seq<Seq<char>>, b: Seq<Seq<char>>)
    ensures
        lines_text(a + b) == lines_text(a) + lines_text(b),
    decreases b.len(),
{
    if b.len() == 0 {
        assert(a + b =~= a);
        assert(lines_text(a) + lines_text(b) =~= lines_text(a));
    } else {
        lemma_lines_text_add(a, b.drop_last());
        assert((a + b).drop_last() =~= a + b.drop_last());
        assert((a + b).last() == b.last());
        assert(lines_text(a + b) =~= lines_text(a) + lines_text(b));
    }
}

/// No line after the first starts with `---`.
pub open spec fn no_rule_after_first(ls: Seq<Seq<char>>) -> bool {
    forall|k: int| 1 <= k < ls.len() ==> !starts_with(#[trigger] ls[k], "---"@)
}

proof fn lemma_no_early_close(ls: Seq<Seq<char>>, s: Seq<char>, k: int)
    requires
        0 <= k <= ls.len(),
        single_lines(ls),
        no_rule_after_first(ls),
        lines_text(ls) =~= s.take(lines_text(ls).len() as int),
        lines_text(ls).len() <= s.len(),
    ensures
        forall|p: int| 0 <= p < lines_text(ls.take(k)).len() - 1 ==> !occurs_at(s, "\n---"@, p),
    decreases k,
{
    reveal_strlit("\n---");
    reveal_strlit("---");
    reveal_strlit("\n");
    if k > 0 {
        lemma_no_early_close(ls, s, k - 1);
        let tk = lines_text(ls.take(k - 1));
        let l = ls[k - 1];
        assert(ls.take(k).drop_last() == ls.take(k - 1));
        assert(ls.take(k).last() == l);
        let tk1 = lines_text(ls.take(k));
        assert(tk1 == tk + l + "\n"@);
        lemma_lines_text_add(ls.take(k), ls.skip(k));
        assert(ls.take(k) + ls.skip(k) == ls);
        // `s` starts with `tk1`.
        assert forall|i: int| 0 <= i < tk1.len() implies s[i] == #[trigger] tk1[i] by {
            assert(lines_text(ls)[i] == tk1[i]);
            assert(s.take(lines_text(ls).len() as int)[i] == s[i]);
        }
        assert(free_of(ls[k - 1], '\n'));
        assert forall|p: int| 0 <= p < tk1.len() - 1 implies !occurs_at(s, "\n---"@, p) by {
            if p < tk.len() - 1 {
            } else if p == tk.len() - 1 {
                // the newline ending line k - 2; line k - 1 does not open with `---`
                assert(k - 1 >= 1);
                assert(!starts_with(ls[k - 1], "---"@));
                if occurs_at(s, "\n---"@, p) {
                    let w = s.subrange(p, p + 4);
                    if l.len() >= 3 {
                        assert forall|j: int| 0 <= j < 3 implies l[j] == '-' by {
                            assert(s[p + 1 + j] == tk1[p + 1 + j]);
                            assert(tk1[p + 1 + j] == l[j]);
                            assert(w[j + 1] == s[p + 1 + j]);
                            assert("\n---"@[j + 1] == '-');
                        }
                        assert(l.take(3) =~= "---"@);
                    } else {
                        let j = l.len() as int;
                        assert(s[p + 1 + j] == tk1[p + 1 + j]);
                        assert(tk1[p + 1 + j] == '\n');
                        assert(w[j + 1] == s[p + 1 + j]);
                        assert("\n---"@[j + 1] == '-');
                    }
                }
            } else {
                let j = p - tk.len();
                assert(0 <= j < l.len());
                assert(s[p] == tk1[p]);
                assert(tk1[p] == l[j]);
                if occurs_at(s, "\n---"@, p) {
                    assert(s.subrange(p, p + 4)[0] == s[p]);
                }
            }
        }
    }
}

/// Where the front matter a document opens with ends: right after its last
/// line, when no line after the first starts with `---`.
proof fn lemma_close_found(ls: Seq<Seq<char>>, x: Seq<char>)
    requires
        ls.len() > 0,
        single_lines(ls),
        no_rule_after_first(ls),
    ensures
        find(lines_text(ls) + "---"@ + x, "\n---"@) == Some(lines_text(ls).len() - 1),
{
    reveal_strlit("\n---");
    reveal_strlit("---");
    let t = lines_text(ls);
    let s = t + "---"@ + x;
    lemma_lines_text_ends(ls);
    assert(t =~= s.take(t.len() as int));
    assert(ls.take(ls.len() as int) == ls);
    lemma_no_early_close(ls, s, ls.len() as int);
    let i = t.len() - 1;
    assert(s.subrange(i, i + 4) =~= "\n---"@) by {
        assert(s[i] == t[i]);
        assert(t[i] == '\n');
    }
    lemma_find_first(s, "\n---"@, i);
}

/// A capability as the front matter can carry it and give back: not empty,
/// no `,` or newline in it, and neither white space, a quote nor a list
/// bracket at either end.
pub open spec fn plain_capability(c: Seq<char>) -> bool {
    &&& c.len() > 0
    &&& free_of(c, ',')
    &&& free_of(c, '\n')
    &&& !is_ws(c[0])
    &&& !is_ws(c.last())
    &&& !is_quote(c[0])
    &&& !is_quote(c.last())
    &&& c[0] != '['
    &&& c.last() != ']'
}

proof fn lemma_trim_plain(c: Seq<char>)
    requires
        c.len() > 0,
        !is_ws(c[0]),
        !is_ws(c.last()),
    ensures
        trim(c) == c,
{
    assert(trim_start(c) == c);
    assert(trim_end(c) == c);
}

proof fn lemma_list_item_plain(c: Seq<char>)
    requires
        plain_capability(c),
    ensures
        list_item(c) == c,
        list_item(" "@ + c) == c,
{
    reveal_strlit(" ");
    lemma_trim_plain(c);
    assert(trim_quotes_start(c) == c);
    assert(trim_quotes_end(c) == c);
    let sc = " "@ + c;
    assert(is_ws(sc[0]));
    assert(sc.drop_first() =~= c);
    assert(trim_start(sc) == trim_start(c));
}

/// The pieces `join_str(cs, ", ")` splits into at `,`: the first, then
/// each other with the space before it.
pub open spec fn comma_pieces(cs: Seq<Seq<char>>) -> Seq<Seq<char>>
    decreases cs.len(),
{
    if cs.len() <= 1 {
        cs
    } else {
        comma_pieces(cs.drop_last()).push(" "@ + cs.last())
    }
}

proof fn lemma_join_ends(cs: Seq<Seq<char>>)
    requires
        cs.len() > 0,
        forall|k: int| 0 <= k < cs.len() ==> plain_capability(#[trigger] cs[k]),
    ensures
        join_str(cs, ", "@).len() > 0,
        join_str(cs, ", "@)[0] == cs[0][0],
        join_str(cs, ", "@).last() == cs.last().last(),
    decreases cs.len(),
{
    assert(plain_capability(cs[0]));
    assert(plain_capability(cs[cs.len() - 1]));
    if cs.len() > 1 {
        let d = cs.drop_last();
        assert forall|k: int| 0 <= k < d.len() implies plain_capability(#[trigger] d[k]) by {
            assert(d[k] == cs[k]);
        }
        lemma_join_ends(d);
        assert(d[0] == cs[0]);
    }
}

proof fn lemma_split_join(cs: Seq<Seq<char>>)
    requires
        cs.len() > 0,
        forall|k: int| 0 <= k < cs.len() ==> plain_capability(#[trigger] cs[k]),
    ensures
        split_char(join_str(cs, ", "@), ',') == comma_pieces(cs),
    decreases cs.len(),
{
    reveal_strlit(", ");
    reveal_strlit(" ");
    assert(plain_capability(cs[cs.len() - 1]));
    if cs.len() == 1 {
        lemma_split_plain(cs[0], ',');
    } else {
        let d = cs.drop_last();
        assert forall|k: int| 0 <= k < d.len() implies plain_capability(#[trigger] d[k]) by {
            assert(d[k] == cs[k]);
        }
        lemma_split_join(d);
        let jd = join_str(d, ", "@);
        let t = " "@ + cs.last();
        assert(join_str(cs, ", "@) =~= jd.push(',') + t);
        assert(free_of(t, ',')) by {
            assert forall|i: int| 0 <= i < t.len() implies t[i] != ',' by {
                if i > 0 {
                    assert(t[i] == cs.last()[i - 1]);
                }
            }
        }
        lemma_split_sep(jd, t, ',');
    }
}

proof fn lemma_items_of_pieces(cs: Seq<Seq<char>>)
    requires
        forall|k: int| 0 <= k < cs.len() ==> plain_capability(#[trigger] cs[k]),
    ensures
        list_items(comma_pieces(cs)) == cs,
    decreases cs.len(),
{
    if cs.len() == 1 {
        assert(plain_capability(cs[0]));
        lemma_list_item_plain(cs[0]);
        assert(cs.drop_last() =~= Seq::<Seq<char>>::empty());
        assert(list_items(cs) == list_items(cs.drop_last()).push(cs[0]));
        assert(list_items(cs) =~= cs);
    } else if cs.len() > 1 {
        let d = cs.drop_last();
        assert forall|k: int| 0 <= k < d.len() implies plain_capability(#[trigger] d[k]) by {
            assert(d[k] == cs[k]);
        }
        lemma_items_of_pieces(d);
        assert(plain_capability(cs[cs.len() - 1]));
        lemma_list_item_plain(cs.last());
        let ps = comma_pieces(cs);
        assert(ps.drop_last() == comma_pieces(d));
        assert(ps.last() == " "@ + cs.last());
        assert(list_items(ps) =~= d.push(cs.last()));
        assert(d.push(cs.last()) =~= cs);
    }
}

/// What follows `capabilities:` in the line the document carries reads back
/// as the capabilities it was written from.
proof fn lemma_capability_list_round_trip(cs: Seq<Seq<char>>)
    requires
        cs.len() > 0,
        forall|k: int| 0 <= k < cs.len() ==> plain_capability(#[trigger] cs[k]),
    ensures
        capability_list(" "@ + join_str(cs, ", "@)) == cs,
{
    reveal_strlit(" ");
    let j = join_str(cs, ", "@);
    lemma_join_ends(cs);
    assert(plain_capability(cs[0]));
    assert(plain_capability(cs[cs.len() - 1]));
    lemma_trim_plain(j);
    let sj = " "@ + j;
    assert(sj.drop_first() =~= j);
    assert(trim_start(sj) == trim_start(j));
    assert(trim(sj) == j);
    assert(trim_start_char(j, '[') == j);
    assert(trim_end_char(j, ']') == j);
    lemma_split_join(cs);
    lemma_items_of_pieces(cs);
}

proof fn lemma_split_first(s: Seq<char>, c: char, k: int)
    requires
        0 <= k < s.len(),
        s[k] == c,
        free_of(s.take(k), c),
    ensures
        split_char(s, c).len() >= 2,
        split_char(s, c)[0] == s.take(k),
    decreases s.len(),
{
    if k == s.len() - 1 {
        lemma_split_plain(s.take(k), c);
        assert(s.drop_last() == s.take(k));
    } else {
        let d = s.drop_last();
        assert(d.take(k) == s.take(k));
        lemma_split_first(d, c, k);
    }
}

proof fn lemma_trim_start_prefix(s: Seq<char>) -> (a: int)
    ensures
        0 <= a <= s.len(),
        trim_start(s) == s.skip(a),
        forall|i: int| 0 <= i < a ==> is_ws(#[trigger] s[i]),
    decreases s.len(),
{
    if s.len() > 0 && is_ws(s[0]) {
        let b = lemma_trim_start_prefix(s.drop_first());
        assert(s.drop_first().skip(b) == s.skip(b + 1));
        assert forall|i: int| 0 <= i < b + 1 implies is_ws(#[trigger] s[i]) by {
            if i > 0 {
                assert(s[i] == s.drop_first()[i - 1]);
            }
        }
        b + 1
    } else {
        assert(s.skip(0) == s);
        0
    }
}

proof fn lemma_trim_end_prefix(s: Seq<char>) -> (m: int)
    ensures
        0 <= m <= s.len(),
        trim_end(s) == s.take(m),
    decreases s.len(),
{
    if s.len() > 0 && is_ws(s.last()) {
        let m = lemma_trim_end_prefix(s.drop_last());
        assert(s.drop_last().take(m) == s.take(m));
        m
    } else {
        assert(s.take(s.len() as int) == s);
        s.len() as int
    }
}

proof fn lemma_trim_start_of_ws(w: Seq<char>, v: Seq<char>)
    requires
        forall|i: int| 0 <= i < w.len() ==> is_ws(#[trigger] w[i]),
    ensures
        trim_start(w + v) == trim_start(v),
    decreases w.len(),
{
    if w.len() > 0 {
        assert(is_ws(w[0]));
        assert((w + v)[0] == w[0]);
        assert((w + v).drop_first() =~= w.drop_first() + v);
        assert forall|i: int| 0 <= i < w.drop_first().len() implies is_ws(#[trigger] w.drop_first()[i]) by {
            assert(w.drop_first()[i] == w[i + 1]);
        }
        lemma_trim_start_of_ws(w.drop_first(), v);
    } else {
        assert(w + v =~= v);
    }
}

/// Where the trimmed line starts with `p`, so does the line once its
/// leading white space is gone.
proof fn lemma_trim_starts(l: Seq<char>, p: Seq<char>)
    requires
        starts_with(trim(l), p),
    ensures
        starts_with(trim_start(l), p),
{
    let m = lemma_trim_end_prefix(trim_start(l));
    assert(trim(l) == trim_start(l).take(m));
    assert(trim_start(l).take(p.len() as int) =~= trim(l).take(p.len() as int));
}

/// A line whose trimmed text opens `capabilities:` has the key
/// `capabilities`.
proof fn lemma_capabilities_key(l: Seq<char>)
    requires
        starts_with(trim(l), "capabilities:"@),
    ensures
        front_key_of(l) == "capabilities"@,
{
    reveal_strlit("capabilities:");
    reveal_strlit("capabilities");
    lemma_trim_starts(l, "capabilities:"@);
    let a = lemma_trim_start_prefix(l);
    let k = a + 12;
    assert(l.skip(a).take(13) =~= "capabilities:"@);
    assert forall|i: int| 0 <= i < 13 implies l[a + i] == "capabilities:"@[i] by {
        assert(l.skip(a).take(13)[i] == l[a + i]);
    }
    assert(l[a + 12] == "capabilities:"@[12]);
    assert("capabilities:"@[12] == ':');
    assert(l[k] == ':');
    let w = l.take(a);
    assert(l.take(k) =~= w + "capabilities"@) by {
        assert forall|i: int| 0 <= i < k implies l.take(k)[i] == (w + "capabilities"@)[i] by {
            if i >= a {
                assert(l[a + (i - a)] == "capabilities:"@[i - a]);
            }
        }
    }
    assert(free_of(l.take(k), ':')) by {
        assert forall|i: int| 0 <= i < k implies l.take(k)[i] != ':' by {
            if i < a {
                assert(is_ws(l[i]));
            } else {
                assert(l[a + (i - a)] == "capabilities:"@[i - a]);
            }
        }
    }
    lemma_split_first(l, ':', k);
    assert forall|i: int| 0 <= i < w.len() implies is_ws(#[trigger] w[i]) by {
        assert(w[i] == l[i]);
    }
    lemma_trim_start_of_ws(w, "capabilities"@);
    lemma_trim_plain("capabilities"@);
}

/// The first line from `i` on whose trimmed text opens `capabilities:` is
/// at or after `m` when none before `m` does.
proof fn lemma_capabilities_line_skip(ls: Seq<Seq<char>>, i: int, m: int)
    requires
        0 <= i <= m <= ls.len(),
        forall|j: int| i <= j < m ==> strip_prefix(trim(#[trigger] ls[j]), "capabilities:"@) is None,
    ensures
        capabilities_line(ls, i as nat) == capabilities_line(ls, m as nat),
    decreases m - i,
{
    if i < m {
        assert(strip_prefix(trim(ls[i]), "capabilities:"@) is None);
        lemma_capabilities_line_skip(ls, i + 1, m);
    }
}

proof fn lemma_split_pieces_free(s: Seq<char>, c: char)
    ensures
        forall|k: int| 0 <= k < split_char(s, c).len() ==> free_of(#[trigger] split_char(s, c)[k], c),
    decreases s.len(),
{
    lemma_split_char_nonempty(s, c);
    if s.len() > 0 {
        lemma_split_pieces_free(s.drop_last(), c);
        lemma_split_char_nonempty(s.drop_last(), c);
        let p = split_char(s.drop_last(), c);
        if s.last() != c {
            assert forall|k: int| 0 <= k < split_char(s, c).len() implies free_of(#[trigger] split_char(s, c)[k], c) by {
                if k == p.len() - 1 {
                    assert(free_of(p[k], c));
                    let q = p.last().push(s.last());
                    assert forall|i: int| 0 <= i < q.len() implies q[i] != c by {
                        if i < p.last().len() {
                            assert(q[i] == p.last()[i]);
                        }
                    }
                } else {
                    assert(split_char(s, c)[k] == p[k]);
                }
            }
        } else {
            assert forall|k: int| 0 <= k < split_char(s, c).len() implies free_of(#[trigger] split_char(s, c)[k], c) by {
                if k < p.len() {
                    assert(split_char(s, c)[k] == p[k]);
                }
            }
        }
    } else {
        assert(split_char(s, c) == seq![Seq::<char>::empty()]);
    }
}

proof fn lemma_lines_single(t: Seq<char>)
    ensures
        single_lines(str_lines(t)),
{
    let ps = split_char(t, '\n');
    lemma_split_pieces_free(t, '\n');
    lemma_split_char_nonempty(t, '\n');
    let ls = str_lines(t);
    assert forall|k: int| 0 <= k < ls.len() implies free_of(#[trigger] ls[k], '\n') by {
        assert(free_of(ps[k], '\n'));
        if k < ps.len() - 1 {
            assert(ls[k] == strip_cr(ps[k]));
            if ps[k].len() > 0 && ps[k].last() == '\r' {
                assert forall|i: int| 0 <= i < ls[k].len() implies ls[k][i] != '\n' by {
                    assert(ls[k][i] == ps[k][i]);
                }
            }
        }
    }
}

proof fn lemma_kept(front: Seq<Seq<char>>)
    ensures
        forall|k: int|
            0 <= k < kept_front(front).len() ==> front_key_of(#[trigger] kept_front(front)[k]) != "capabilities"@
                && front.contains(kept_front(front)[k]),
{
    let pred = |l: Seq<char>| front_key_of(l) != "capabilities"@;
    assert forall|k: int| 0 <= k < kept_front(front).len() implies front_key_of(#[trigger] kept_front(front)[k])
        != "capabilities"@ && front.contains(kept_front(front)[k]) by {
        front.lemma_filter_pred(pred, k);
        assert(front.filter(pred).contains(front.filter(pred)[k]));
        front.lemma_filter_contains_rev(pred, front.filter(pred)[k]);
    }
}

proof fn lemma_header_shape(front: Seq<Seq<char>>, caps: Seq<Seq<char>>)
    requires
        single_lines(front),
        forall|k: int| 0 <= k < front.len() ==> !starts_with(#[trigger] front[k], "---"@),
        forall|k: int| 0 <= k < caps.len() ==> plain_capability(#[trigger] caps[k]),
    ensures
        header_lines(front, caps).len() > 0,
        single_lines(header_lines(front, caps)),
        no_rule_after_first(header_lines(front, caps)),
{
    reveal_strlit("status: draft");
    reveal_strlit("owner: ");
    reveal_strlit("capabilities: ");
    reveal_strlit("---");
    let pre = (if has_front_key(front, "status"@) { seq![] } else { seq!["status: draft"@] }) + (if has_front_key(
        front,
        "owner"@,
    ) {
        seq![]
    } else {
        seq!["owner: "@]
    });
    let kept = kept_front(front);
    let capl: Seq<Seq<char>> = if caps.len() > 0 {
        seq!["capabilities: "@ + join_str(caps, ", "@)]
    } else {
        seq![]
    };
    let hl = header_lines(front, caps);
    assert(hl == pre + kept + capl);
    lemma_kept(front);
    if has_front_key(front, "status"@) {
        let j = choose|j: int| 0 <= j < front.len() && front_key_of(#[trigger] front[j]) == "status"@;
        reveal_strlit("status");
        reveal_strlit("capabilities");
        assert("status"@ != "capabilities"@) by {
            assert("status"@[0] != "capabilities"@[0]);
        }
        front.lemma_filter_contains(|l: Seq<char>| front_key_of(l) != "capabilities"@, j);
        assert(kept.len() > 0);
    }
    if caps.len() > 0 {
        lemma_join_ends(caps);
        assert(plain_capability(caps[0]));
    }
    assert forall|k: int| 0 <= k < hl.len() implies free_of(#[trigger] hl[k], '\n') && (k >= 1 ==> !starts_with(
        hl[k],
        "---"@,
    )) by {
        if k < pre.len() {
            assert(hl[k] == pre[k]);
            assert(pre[k] == "status: draft"@ || pre[k] == "owner: "@);
            let l = pre[k];
            assert forall|i: int| 0 <= i < l.len() implies l[i] != '\n' by {
                if l == "status: draft"@ {
                    assert("status: draft"@ =~= seq!['s', 't', 'a', 't', 'u', 's', ':', ' ', 'd', 'r', 'a', 'f', 't']);
                } else {
                    assert("owner: "@ =~= seq!['o', 'w', 'n', 'e', 'r', ':', ' ']);
                }
            }
            assert(l[0] != '-');
            assert("---"@[0] == '-');
            if starts_with(l, "---"@) {
                assert(l.take(3)[0] == l[0]);
            }
        } else if k < pre.len() + kept.len() {
            assert(hl[k] == kept[k - pre.len()]);
            let j = choose|j: int| 0 <= j < front.len() && front[j] == kept[k - pre.len()];
            assert(free_of(front[j], '\n'));
            assert(!starts_with(front[j], "---"@));
        } else {
            assert(hl[k] == capl[k - pre.len() - kept.len()]);
            let l = "capabilities: "@ + join_str(caps, ", "@);
            assert(hl[k] == l);
            assert(l[0] == 'c');
            assert("---"@[0] == '-');
            if starts_with(l, "---"@) {
                assert(l.take(3)[0] == l[0]);
            }
            let j = join_str(caps, ", "@);
            assert forall|i: int| 0 <= i < l.len() implies l[i] != '\n' by {
                if i >= 14 {
                    assert(l[i] == j[i - 14]);
                    lemma_join_free(caps, '\n', i - 14);
                }
            }
        }
    }
}

proof fn lemma_join_free(cs: Seq<Seq<char>>, c: char, i: int)
    requires
        c != ',' && c != ' ',
        forall|k: int| 0 <= k < cs.len() ==> free_of(#[trigger] cs[k], c),
        0 <= i < join_str(cs, ", "@).len(),
    ensures
        join_str(cs, ", "@)[i] != c,
    decreases cs.len(),
{
    reveal_strlit(", ");
    if cs.len() == 1 {
        assert(free_of(cs[0], c));
    } else if cs.len() > 1 {
        let d = cs.drop_last();
        let jd = join_str(d, ", "@);
        assert(join_str(cs, ", "@) == jd + ", "@ + cs.last());
        assert(free_of(cs[cs.len() - 1], c));
        if i < jd.len() {
            assert forall|k: int| 0 <= k < d.len() implies free_of(#[trigger] d[k], c) by {
                assert(d[k] == cs[k]);
            }
            lemma_join_free(d, c, i);
            assert(join_str(cs, ", "@)[i] == jd[i]);
        } else if i < jd.len() + 2 {
        } else {
            assert(join_str(cs, ", "@)[i] == cs.last()[i - jd.len() - 2]);
        }
    }
}

/// The line a literal is known not to open with `capabilities:`.
proof fn lemma_not_capabilities_line(l: Seq<char>)
    requires
        l.len() > 0,
        !is_ws(l[0]),
        l[0] != 'c',
    ensures
        strip_prefix(trim(l), "capabilities:"@) is None,
{
    reveal_strlit("capabilities:");
    if starts_with(trim(l), "capabilities:"@) {
        lemma_trim_starts(l, "capabilities:"@);
        assert(trim_start(l) == l);
        assert(l.take(13)[0] == l[0]);
    }
}

/// The front matter of a generated document holds exactly its header's
/// lines.
proof fn lemma_generated_front_matter(ty: DocumentType, title: Seq<char>, answers: Seq<Answer>)
    requires
        forall|k: int|
            0 <= k < seeded_of(ty.template.questionnaire@, answers).len() ==> plain_capability(
                #[trigger] seeded_of(ty.template.questionnaire@, answers)[k],
            ),
        forall|k: int|
            0 <= k < raw_front_of(ty.template.body@).0.len() ==> !starts_with(
                #[trigger] raw_front_of(ty.template.body@).0[k],
                "---"@,
            ),
    ensures
        front_matter_of(generate_of(ty, title, answers)) matches Some(fm) && split_char(fm, '\n') == header_lines(
            raw_front_of(ty.template.body@).0,
            seeded_of(ty.template.questionnaire@, answers),
        ),
{
    reveal_strlit("---\n");
    reveal_strlit("---\n\n");
    reveal_strlit("---");
    reveal_strlit("\n\n");
    reveal_strlit("\u{feff}");
    let caps = seeded_of(ty.template.questionnaire@, answers);
    let content = ty.template.body@;
    let front = raw_front_of(content).0;
    match strip_prefix(content, "---\n"@) {
        Some(rest) => match find(rest, "\n---\n"@) {
            Some(end) => lemma_lines_single(rest.take(end)),
            None => {},
        },
        None => {},
    }
    lemma_header_shape(front, caps);
    let hl = header_lines(front, caps);
    let lt = lines_text(hl);
    let b = crate::documents::intake::body_of(ty, title, answers);
    let g = generate_of(ty, title, answers);
    assert(g == "---\n"@ + lt + "---\n\n"@ + b);
    assert(g[0] == '-');
    assert(!starts_with(g, "\u{feff}"@)) by {
        if starts_with(g, "\u{feff}"@) {
            assert(g.take(1)[0] == g[0]);
        }
    }
    assert(starts_with(g, "---\n"@)) by {
        assert(g.take(4) =~= "---\n"@);
    }
    let r = g.skip(4);
    assert(r =~= lt + "---"@ + ("\n\n"@ + b));
    lemma_close_found(hl, "\n\n"@ + b);
    lemma_lines_text_ends(hl);
    assert(r.take(lt.len() - 1) =~= lt.drop_last());
    lemma_split_lines_text(hl);
}

/// The first header line that opens `capabilities:` is the one written from
/// the capabilities, and there is none when there are none.
proof fn lemma_header_capabilities_line(front: Seq<Seq<char>>, caps: Seq<Seq<char>>)
    requires
        forall|k: int| 0 <= k < caps.len() ==> plain_capability(#[trigger] caps[k]),
    ensures
        capabilities_line(header_lines(front, caps), 0) == if caps.len() > 0 {
            Some(" "@ + join_str(caps, ", "@))
        } else {
            None
        },
{
    reveal_strlit("capabilities:");
    reveal_strlit("capabilities: ");
    reveal_strlit("status: draft");
    reveal_strlit("owner: ");
    reveal_strlit(" ");
    let hl = header_lines(front, caps);
    let pre = (if has_front_key(front, "status"@) { seq![] } else { seq!["status: draft"@] }) + (if has_front_key(
        front,
        "owner"@,
    ) {
        seq![]
    } else {
        seq!["owner: "@]
    });
    let kept = kept_front(front);
    let m: int = (pre.len() + kept.len()) as int;
    lemma_kept(front);
    assert forall|j: int| 0 <= j < m implies strip_prefix(trim(#[trigger] hl[j]), "capabilities:"@) is None by {
        if j < pre.len() {
            assert(hl[j] == pre[j]);
            lemma_not_capabilities_line(pre[j]);
        } else {
            assert(hl[j] == kept[j - pre.len()]);
            if starts_with(trim(hl[j]), "capabilities:"@) {
                lemma_capabilities_key(hl[j]);
            }
        }
    }
    lemma_capabilities_line_skip(hl, 0, m);
    if caps.len() > 0 {
        let jn = join_str(caps, ", "@);
        let l = "capabilities: "@ + jn;
        assert(hl[m] == l);
        lemma_join_ends(caps);
        assert(plain_capability(caps[caps.len() - 1]));
        assert(l.last() == jn.last());
        lemma_trim_plain(l);
        assert(l.take(13) =~= "capabilities:"@);
        assert(l.skip(13) =~= " "@ + jn);
    } else {
        assert(m == hl.len());
    }
}

/// Capabilities survive the round trip through the document: reading them
/// back out of what [`generate`](crate::documents::intake::generate) wrote
/// gives the ones the answers seeded, in order, as long as each is a plain
/// capability and no front-matter line of the template starts with `---`.
pub proof fn law_capabilities_survive_the_round_trip(
    ty: DocumentType,
    title: Seq<char>,
    answers: Seq<Answer>,
)
    requires
        forall|k: int|
            0 <= k < seeded_of(ty.template.questionnaire@, answers).len() ==> plain_capability(
                #[trigger] seeded_of(ty.template.questionnaire@, answers)[k],
            ),
        forall|k: int|
            0 <= k < raw_front_of(ty.template.body@).0.len() ==> !starts_with(
                #[trigger] raw_front_of(ty.template.body@).0[k],
                "---"@,
            ),
    ensures
        declared_capabilities_of(generate_of(ty, title, answers)) == seeded_of(ty.template.questionnaire@, answers),
{
    let caps = seeded_of(ty.template.questionnaire@, answers);
    let front = raw_front_of(ty.template.body@).0;
    lemma_generated_front_matter(ty, title, answers);
    lemma_header_capabilities_line(front, caps);
    if caps.len() > 0 {
        lemma_capability_list_round_trip(caps);
    } else {
        assert(caps =~= Seq::<Seq<char>>::empty());
    }
}
} // verus!
