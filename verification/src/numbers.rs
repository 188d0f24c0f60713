//! Integers read from and written as decimal text, the way `str::parse` and
//! `{:0N}` formatting do it.

use vstd::prelude::*;

verus! {

pub open spec fn is_digit_byte(b: u8) -> bool {
    48 <= b <= 57
}

pub open spec fn all_digits(bs: Seq<u8>) -> bool {
    forall|i: int| 0 <= i < bs.len() ==> is_digit_byte(#[trigger] bs[i])
}

/// The value of a run of decimal digits.
pub open spec fn digits_value(bs: Seq<u8>) -> nat
    decreases bs.len(),
{
    if bs.len() == 0 {
        0
    } else {
        digits_value(bs.drop_last()) * 10 + (bs.last() - 48) as nat
    }
}

/// `str::parse` for an unsigned integer no larger than `max`: an optional
/// `+`, then at least one digit and nothing else.
pub open spec fn parse_unsigned(bs: Seq<u8>, max: nat) -> Option<nat> {
    let body = if bs.len() > 0 && bs[0] == 43 { bs.drop_first() } else { bs };
    if body.len() > 0 && all_digits(body) && digits_value(body) <= max {
        Some(digits_value(body))
    } else {
        None
    }
}

/// `str::parse::<i64>`: an optional sign, then at least one digit and
/// nothing else, in range.
pub open spec fn parse_i64(bs: Seq<u8>) -> Option<int> {
    if bs.len() > 0 && bs[0] == 45 {
        let body = bs.drop_first();
        if body.len() > 0 && all_digits(body) && digits_value(body) <= 9223372036854775808 {
            Some(-(digits_value(body) as int))
        } else {
            None
        }
    } else {
        match parse_unsigned(bs, 9223372036854775807) {
            Some(v) => Some(v as int),
            None => None,
        }
    }
}

proof fn lemma_digits_step(bs: Seq<u8>, k: int)
    requires
        0 <= k < bs.len(),
    ensures
        digits_value(bs.take(k + 1)) == digits_value(bs.take(k)) * 10 + (bs[k] - 48) as nat,
{
    assert(bs.take(k + 1).drop_last() == bs.take(k));
}

/// The digits `bs[from..to]` as a number no larger than `max`, or `None`
/// when they are not all digits, are none, or say more than `max`.
pub fn digits_in(bs: &[u8], from: usize, to: usize, max: u64) -> (r: Option<u64>)
    requires
        from <= to <= bs@.len(),
    ensures
        match r {
            Some(v) => {
                let s = bs@.subrange(from as int, to as int);
                s.len() > 0 && all_digits(s) && digits_value(s) == v && v <= max
            },
            None => {
                let s = bs@.subrange(from as int, to as int);
                !(s.len() > 0 && all_digits(s) && digits_value(s) <= max)
            },
        },
{
    if from == to {
        return None;
    }
    let ghost s = bs@.subrange(from as int, to as int);
    let mut acc: u64 = 0;
    let mut i = from;
    assert(s.take(0) =~= Seq::<u8>::empty());
    while i < to
        invariant
            from <= i <= to <= bs@.len(),
            s == bs@.subrange(from as int, to as int),
            all_digits(s.take(i - from)),
            acc == digits_value(s.take(i - from)),
            acc <= max,
        decreases to - i,
    {
        let b = bs[i];
        proof {
            assert(s[i - from] == b);
            lemma_digits_step(s, i - from);
        }
        if b < 48 || b > 57 {
            proof {
                assert(!is_digit_byte(s[i - from]));
            }
            return None;
        }
        let d = (b - 48) as u64;
        if d > max || acc > (max - d) / 10 {
            proof {
                assert(acc * 10 + d > max) by (nonlinear_arith)
                    requires
                        d > max || acc > (max - d) / 10,
                ;
                lemma_prefix_value_le(s, i - from + 1);
            }
            return None;
        }
        proof {
            assert(acc * 10 + d <= max) by (nonlinear_arith)
                requires
                    acc <= (max - d) / 10,
                    d <= 9,
            ;
            assert forall|j: int| 0 <= j < i - from + 1 implies is_digit_byte(#[trigger] s.take(i - from + 1)[j]) by {
                if j < i - from {
                    assert(s.take(i - from + 1)[j] == s.take(i - from)[j]);
                }
            }
        }
        acc = acc * 10 + d;
        i += 1;
    }
    assert(s.take(to - from) == s);
    Some(acc)
}

/// A longer run of digits is worth at least as much as its prefix.
proof fn lemma_prefix_value_le(s: Seq<u8>, k: int)
    requires
        0 <= k <= s.len(),
    ensures
        all_digits(s) ==> digits_value(s.take(k)) <= digits_value(s),
    decreases s.len() - k,
{
    if k < s.len() {
        lemma_prefix_value_le(s, k + 1);
        if all_digits(s) {
            lemma_digits_step(s, k);
            assert(is_digit_byte(s[k]));
        }
    } else {
        assert(s.take(k) == s);
    }
}

} // verus!

verus! {

/// `bs[from..to]` parsed as an unsigned integer no larger than `max`.
pub fn parse_unsigned_in(bs: &[u8], from: usize, to: usize, max: u64) -> (r: Option<u64>)
    requires
        from <= to <= bs@.len(),
    ensures
        r matches Some(v) ==> parse_unsigned(bs@.subrange(from as int, to as int), max as nat) == Some(v as nat),
        r is None ==> parse_unsigned(bs@.subrange(from as int, to as int), max as nat) is None,
{
    let ghost s = bs@.subrange(from as int, to as int);
    if from < to && bs[from] == 43 {
        proof {
            assert(s[0] == 43);
            assert(s.drop_first() =~= bs@.subrange(from + 1, to as int));
        }
        digits_in(bs, from + 1, to, max)
    } else {
        proof {
            if s.len() > 0 {
                assert(s[0] == bs@[from as int]);
            }
        }
        digits_in(bs, from, to, max)
    }
}

/// `bs[from..to]` parsed as an `i64`.
pub fn parse_i64_in(bs: &[u8], from: usize, to: usize) -> (r: Option<i64>)
    requires
        from <= to <= bs@.len(),
    ensures
        r matches Some(v) ==> parse_i64(bs@.subrange(from as int, to as int)) == Some(v as int),
        r is None ==> parse_i64(bs@.subrange(from as int, to as int)) is None,
{
    let ghost s = bs@.subrange(from as int, to as int);
    if from < to && bs[from] == 45 {
        proof {
            assert(s[0] == 45);
            assert(s.drop_first() =~= bs@.subrange(from + 1, to as int));
        }
        match digits_in(bs, from + 1, to, 9223372036854775808u64) {
            Some(v) => {
                if v == 9223372036854775808u64 {
                    Some(-9223372036854775807i64 - 1)
                } else {
                    Some(-(v as i64))
                }
            },
            None => None,
        }
    } else {
        proof {
            if s.len() > 0 {
                assert(s[0] == bs@[from as int]);
            }
        }
        match parse_unsigned_in(bs, from, to, 9223372036854775807u64) {
            Some(v) => Some(v as i64),
            None => None,
        }
    }
}

/// The decimal digits of `n`, most significant first; `0` for zero.
pub open spec fn decimal(n: nat) -> Seq<char>
    decreases n,
{
    if n < 10 {
        seq![((n + 48) as u32) as char]
    } else {
        decimal(n / 10).push((((n % 10) + 48) as u32) as char)
    }
}

/// `n` zero-padded to at least `width` characters, sign included, as the
/// `{:0width$}` format writes it.
pub open spec fn padded(n: int, width: nat) -> Seq<char> {
    let digits = decimal(if n < 0 { (-n) as nat } else { n as nat });
    let sign: Seq<char> = if n < 0 { seq!['-'] } else { seq![] };
    let fill = if sign.len() + digits.len() < width { width - sign.len() - digits.len() } else { 0 };
    sign + Seq::new(fill as nat, |i: int| '0') + digits
}

fn digit_char(d: u64) -> (c: char)
    requires
        d < 10,
    ensures
        c == ((d + 48) as u32) as char,
{
    let b: u8 = (d as u8) + 48;
    b as char
}

/// The decimal digits of `n`.
pub fn decimal_of(n: u64) -> (out: Vec<char>)
    ensures
        out@ == decimal(n as nat),
    decreases n,
{
    if n < 10 {
        let mut v: Vec<char> = Vec::new();
        v.push(digit_char(n));
        v
    } else {
        let mut v = decimal_of(n / 10);
        v.push(digit_char(n % 10));
        v
    }
}

/// `{:0width$}` for an `i64`.
pub fn padded_of(n: i64, width: usize) -> (out: Vec<char>)
    ensures
        out@ == padded(n as int, width as nat),
{
    let mag: u64 = if n < 0 {
        if n == -9223372036854775807i64 - 1 {
            9223372036854775808u64
        } else {
            (-n) as u64
        }
    } else {
        n as u64
    };
    let digits = decimal_of(mag);
    let mut out: Vec<char> = Vec::new();
    if n < 0 {
        out.push('-');
    }
    let sign_len: usize = if n < 0 { 1 } else { 0 };
    let ghost sign: Seq<char> = if n < 0 { seq!['-'] } else { seq![] };
    assert(out@ == sign);
    let fill: usize = if digits.len() < width && sign_len + digits.len() < width {
        width - sign_len - digits.len()
    } else {
        0
    };
    let mut k: usize = 0;
    while k < fill
        invariant
            k <= fill,
            out@ == sign + Seq::new(k as nat, |i: int| '0'),
        decreases fill - k,
    {
        out.push('0');
        proof {
            assert(sign + Seq::new((k + 1) as nat, |i: int| '0') =~= (sign + Seq::new(k as nat, |i: int| '0')).push('0'));
        }
        k += 1;
    }
    let n2 = digits.len();
    for i in 0..n2
        invariant
            n2 == digits@.len(),
            out@ == sign + Seq::new(fill as nat, |i: int| '0') + digits@.take(i as int),
    {
        out.push(digits[i]);
        proof {
            assert(digits@.take(i + 1) == digits@.take(i as int).push(digits@[i as int]));
        }
    }
    proof {
        assert(digits@.take(n2 as int) == digits@);
        assert(mag as nat == (if n < 0 { (-n) as nat } else { n as nat }));
    }
    out
}

} // verus!

verus! {

pub open spec fn pow10(n: nat) -> nat
    decreases n,
{
    if n == 0 {
        1
    } else {
        10 * pow10((n - 1) as nat)
    }
}

/// A run of `n` digits is worth less than `10^n`.
pub proof fn lemma_digits_value_bound(s: Seq<u8>)
    requires
        all_digits(s),
    ensures
        digits_value(s) < pow10(s.len()),
    decreases s.len(),
{
    if s.len() > 0 {
        let p = s.drop_last();
        assert(all_digits(p)) by {
            assert forall|i: int| 0 <= i < p.len() implies is_digit_byte(#[trigger] p[i]) by {
                assert(p[i] == s[i]);
            }
        }
        lemma_digits_value_bound(p);
        assert(is_digit_byte(s[s.len() - 1]));
        assert(digits_value(s) == digits_value(p) * 10 + (s.last() - 48) as nat);
        assert(digits_value(p) * 10 + 9 < pow10(p.len()) * 10) by (nonlinear_arith)
            requires
                digits_value(p) < pow10(p.len()),
        ;
    }
}

} // verus!
