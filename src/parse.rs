//! A tolerant reader for the labeled score lines of generated text
//! (`- NETWORK_COHERENCE: 42.5`).
//!
//! A number is an optional sign, decimal digits and an optional fraction;
//! it is read in thousandths, digits past the third decimal are dropped and
//! magnitudes past `PARSE_LIMIT` saturate. Anything else does not parse.
use vstd::prelude::*;
use crate::types::{clamp, SCALE};

verus! {

/// Largest magnitude a parsed number takes, in thousandths.
pub const PARSE_LIMIT: i64 = 1_000_000_000_000_000;

/// Largest whole part kept while reading digits.
pub const WHOLE_LIMIT: i64 = 1_000_000_000_000;

pub open spec fn is_ws(c: char) -> bool {
    c == ' ' || c == '\t' || c == '\n' || c == '\r' || c == '\x0b' || c == '\x0c'
}

pub open spec fn is_digit(c: char) -> bool {
    '0' <= c && c <= '9'
}

pub open spec fn digit_value(c: char) -> int {
    c as int - '0' as int
}

pub open spec fn all_digits(s: Seq<char>) -> bool {
    forall|i: int| 0 <= i < s.len() ==> is_digit(#[trigger] s[i])
}

/// The number that the decimal digits `s` spell.
pub open spec fn digits_value(s: Seq<char>) -> int
    decreases s.len(),
{
    if s.len() == 0 {
        0
    } else {
        10 * digits_value(s.drop_last()) + digit_value(s.last())
    }
}

/// `s` without leading whitespace.
pub open spec fn trim_start(s: Seq<char>) -> Seq<char>
    decreases s.len(),
{
    if s.len() > 0 && is_ws(s[0]) {
        trim_start(s.drop_first())
    } else {
        s
    }
}

/// `s` without trailing whitespace.
pub open spec fn trim_end(s: Seq<char>) -> Seq<char>
    decreases s.len(),
{
    if s.len() > 0 && is_ws(s.last()) {
        trim_end(s.drop_last())
    } else {
        s
    }
}

pub open spec fn trim(s: Seq<char>) -> Seq<char> {
    trim_end(trim_start(s))
}

/// Index of the first `c` in `s` at or after `i`, or `s.len()`.
pub open spec fn find_from(s: Seq<char>, c: char, i: int) -> int
    decreases s.len() - i,
{
    if i < 0 || i >= s.len() {
        s.len() as int
    } else if s[i] == c {
        i
    } else {
        find_from(s, c, i + 1)
    }
}

/// Thousandths spelled by the fraction digits `f`: its first three digits.
pub open spec fn fraction_value(f: Seq<char>) -> int {
    if f.len() >= 3 {
        digits_value(f.take(3))
    } else if f.len() == 2 {
        10 * digits_value(f)
    } else if f.len() == 1 {
        100 * digits_value(f)
    } else {
        0
    }
}

/// Whether `s` starts with a sign character.
pub open spec fn has_sign(s: Seq<char>) -> bool {
    s.len() > 0 && (s[0] == '-' || s[0] == '+')
}

/// The unsigned part of a number: `s` without its sign.
pub open spec fn unsigned_part(s: Seq<char>) -> Seq<char> {
    if has_sign(s) {
        s.drop_first()
    } else {
        s
    }
}

/// The whole digits of an unsigned number.
pub open spec fn whole_part(b: Seq<char>) -> Seq<char> {
    b.take(find_from(b, '.', 0))
}

/// The fraction digits of an unsigned number.
pub open spec fn fraction_part(b: Seq<char>) -> Seq<char> {
    let p = find_from(b, '.', 0);
    if p < b.len() {
        b.skip(p + 1)
    } else {
        Seq::empty()
    }
}

/// The value of the decimal number `s` in thousandths, or `None` where `s`
/// is not a number.
pub open spec fn decimal_value(s: Seq<char>) -> Option<int> {
    let b = unsigned_part(s);
    let w = whole_part(b);
    let f = fraction_part(b);
    if all_digits(w) && all_digits(f) && (w.len() > 0 || f.len() > 0) {
        let m = digits_value(w) * SCALE + fraction_value(f);
        Some(if s.len() > 0 && s[0] == '-' { -m } else { m })
    } else {
        None
    }
}

/// An optional machine integer as a mathematical one.
pub open spec fn opt_int(r: Option<i64>) -> Option<int> {
    match r {
        Some(x) => Some(x as int),
        None => None,
    }
}

/// What the reader returns for `s`: its value, saturated at `PARSE_LIMIT`.
pub open spec fn parsed(s: Seq<char>) -> Option<int> {
    match decimal_value(s) {
        Some(v) => Some(clamp(v, -PARSE_LIMIT as int, PARSE_LIMIT as int)),
        None => None,
    }
}

proof fn lemma_digits_push(s: Seq<char>, c: char)
    ensures
        digits_value(s.push(c)) == 10 * digits_value(s) + digit_value(c),
{
    assert(s.push(c).drop_last() =~= s);
}

proof fn lemma_digits_nonneg(s: Seq<char>)
    requires
        all_digits(s),
    ensures
        digits_value(s) >= 0,
    decreases s.len(),
{
    if s.len() > 0 {
        assert(all_digits(s.drop_last())) by {
            assert forall|i: int| 0 <= i < s.drop_last().len() implies is_digit(
                #[trigger] s.drop_last()[i],
            ) by {
                assert(s.drop_last()[i] == s[i]);
            }
        }
        lemma_digits_nonneg(s.drop_last());
        assert(is_digit(s[s.len() - 1]));
    }
}

proof fn lemma_capped_step(a: int, d: int, cap: int)
    requires
        a >= 0,
        0 <= d <= 9,
        cap >= 0,
    ensures
        clamp(10 * clamp(a, 0, cap) + d, 0, cap) == clamp(10 * a + d, 0, cap),
{
    if a > cap {
        assert(10 * a + d >= cap) by (nonlinear_arith)
            requires
                a > cap,
                cap >= 0,
                d >= 0,
        ;
    }
}

fn is_ws_char(c: char) -> (r: bool)
    ensures
        r == is_ws(c),
{
    c == ' ' || c == '\t' || c == '\n' || c == '\r' || c == '\x0b' || c == '\x0c'
}

/// Bounds of `cs[lo..hi]` with surrounding whitespace removed.
pub fn trim_bounds(cs: &Vec<char>, lo: usize, hi: usize) -> (r: (usize, usize))
    requires
        lo <= hi <= cs.len(),
    ensures
        lo <= r.0 <= r.1 <= hi,
        cs@.subrange(r.0 as int, r.1 as int) == trim(cs@.subrange(lo as int, hi as int)),
{
    let mut a = lo;
    while a < hi && is_ws_char(cs[a])
        invariant
            lo <= a <= hi <= cs.len(),
            trim_start(cs@.subrange(lo as int, hi as int)) == trim_start(
                cs@.subrange(a as int, hi as int),
            ),
        decreases hi - a,
    {
        assert(cs@.subrange(a as int, hi as int).drop_first() =~= cs@.subrange(
            a + 1,
            hi as int,
        ));
        a = a + 1;
    }
    assert(trim_start(cs@.subrange(a as int, hi as int)) == cs@.subrange(a as int, hi as int));
    let mut b = hi;
    while b > a && is_ws_char(cs[b - 1])
        invariant
            lo <= a <= b <= hi <= cs.len(),
            trim_end(cs@.subrange(a as int, hi as int)) == trim_end(
                cs@.subrange(a as int, b as int),
            ),
        decreases b - a,
    {
        assert(cs@.subrange(a as int, b as int).drop_last() =~= cs@.subrange(
            a as int,
            b - 1,
        ));
        b = b - 1;
    }
    (a, b)
}

/// First index of `c` in `cs[lo..hi]`, or `hi`.
pub fn find_char(cs: &Vec<char>, lo: usize, hi: usize, c: char) -> (r: usize)
    requires
        lo <= hi <= cs.len(),
    ensures
        lo <= r <= hi,
        r - lo == find_from(cs@.subrange(lo as int, hi as int), c, 0),
{
    let ghost s = cs@.subrange(lo as int, hi as int);
    let mut i = lo;
    while i < hi && cs[i] != c
        invariant
            lo <= i <= hi <= cs.len(),
            s == cs@.subrange(lo as int, hi as int),
            find_from(s, c, 0) == find_from(s, c, i - lo),
        decreases hi - i,
    {
        i = i + 1;
    }
    i
}

/// Reads whole digits of `cs[lo..hi]` starting at `lo`; returns the index of
/// the first non-digit and the value read, saturated at `WHOLE_LIMIT`.
fn read_digits(cs: &Vec<char>, lo: usize, hi: usize) -> (r: (usize, i64))
    requires
        lo <= hi <= cs.len(),
    ensures
        lo <= r.0 <= hi,
        all_digits(cs@.subrange(lo as int, r.0 as int)),
        r.0 < hi ==> !is_digit(cs@[r.0 as int]),
        r.1 == clamp(digits_value(cs@.subrange(lo as int, r.0 as int)), 0, WHOLE_LIMIT as int),
{
    let mut i = lo;
    let mut v: i64 = 0;
    while i < hi && '0' <= cs[i] && cs[i] <= '9'
        invariant
            lo <= i <= hi <= cs.len(),
            all_digits(cs@.subrange(lo as int, i as int)),
            v == clamp(digits_value(cs@.subrange(lo as int, i as int)), 0, WHOLE_LIMIT as int),
        decreases hi - i,
    {
        let ghost prefix = cs@.subrange(lo as int, i as int);
        let d = (cs[i] as u32 - '0' as u32) as i64;
        proof {
            assert(cs@.subrange(lo as int, i + 1) =~= prefix.push(cs@[i as int]));
            lemma_digits_push(prefix, cs@[i as int]);
            lemma_digits_nonneg(prefix);
            lemma_capped_step(digits_value(prefix), d as int, WHOLE_LIMIT as int);
        }
        let t = 10 * v + d;
        v = if t > WHOLE_LIMIT { WHOLE_LIMIT } else { t };
        i = i + 1;
    }
    (i, v)
}

pub open spec fn pow10(n: nat) -> int
    decreases n,
{
    if n == 0 {
        1
    } else {
        10 * pow10((n - 1) as nat)
    }
}

proof fn lemma_digits_bound(s: Seq<char>)
    requires
        all_digits(s),
    ensures
        0 <= digits_value(s) < pow10(s.len()),
    decreases s.len(),
{
    if s.len() > 0 {
        assert(all_digits(s.drop_last())) by {
            assert forall|i: int| 0 <= i < s.drop_last().len() implies is_digit(
                #[trigger] s.drop_last()[i],
            ) by {
                assert(s.drop_last()[i] == s[i]);
            }
        }
        lemma_digits_bound(s.drop_last());
        assert(is_digit(s[s.len() - 1]));
    }
}

pub proof fn lemma_find_from(s: Seq<char>, c: char, k: int)
    requires
        0 <= k <= s.len(),
    ensures
        k <= find_from(s, c, k) <= s.len(),
        forall|j: int| k <= j < find_from(s, c, k) ==> s[j] != c,
        find_from(s, c, k) < s.len() ==> s[find_from(s, c, k)] == c,
    decreases s.len() - k,
{
    if k < s.len() && s[k] != c {
        lemma_find_from(s, c, k + 1);
    }
}

/// Reads the decimal number `cs[lo..hi]` in thousandths.
pub fn parse_number(cs: &Vec<char>, lo: usize, hi: usize) -> (r: Option<i64>)
    requires
        lo <= hi <= cs.len(),
    ensures
        opt_int(r) == parsed(cs@.subrange(lo as int, hi as int)),
{
    let ghost s = cs@.subrange(lo as int, hi as int);
    let neg = lo < hi && cs[lo] == '-';
    let start = if lo < hi && (cs[lo] == '-' || cs[lo] == '+') {
        lo + 1
    } else {
        lo
    };
    let ghost b = cs@.subrange(start as int, hi as int);
    assert(unsigned_part(s) =~= b);
    let (i, w) = read_digits(cs, start, hi);
    proof {
        lemma_find_from(b, '.', 0);
        lemma_digits_nonneg(cs@.subrange(start as int, i as int));
    }
    let ghost p = find_from(b, '.', 0);
    let mut frac: i64 = 0;
    if i < hi {
        if cs[i] != '.' {
            proof {
                assert(b[i - start] == cs@[i as int]);
                assert(p > i - start);
                assert(whole_part(b)[i - start] == cs@[i as int]);
            }
            return None;
        }
        assert(b[i - start] == '.');
        assert(p == i - start) by {
            if p < i - start {
                assert(b[p] == cs@.subrange(start as int, i as int)[p]);
            }
        }
        assert(whole_part(b) =~= cs@.subrange(start as int, i as int));
        assert(fraction_part(b) =~= cs@.subrange(i + 1, hi as int));
        let (j, _) = read_digits(cs, i + 1, hi);
        if j < hi {
            assert(fraction_part(b)[j - i - 1] == cs@[j as int]);
            return None;
        }
        if i == start && i + 1 == hi {
            return None;
        }
        let top = if hi - (i + 1) >= 3 {
            i + 4
        } else {
            hi
        };
        let (e, f) = read_digits(cs, i + 1, top);
        assert(e == top) by {
            if e < top {
                assert(cs@[e as int] == cs@.subrange(i + 1, hi as int)[e - i - 1]);
            }
        }
        let ghost fd = cs@.subrange(i + 1, top as int);
        proof {
            assert(all_digits(fd)) by {
                assert forall|k: int| 0 <= k < fd.len() implies is_digit(#[trigger] fd[k]) by {
                    assert(fd[k] == cs@.subrange(i + 1, hi as int)[k]);
                }
            }
            lemma_digits_bound(fd);
            if hi - (i + 1) >= 3 {
                assert(fraction_part(b).take(3) =~= fd);
            } else {
                assert(fraction_part(b) =~= fd);
            }
            reveal_with_fuel(pow10, 4);
            assert(pow10(fd.len()) <= 1000);
        }
        let len = top - (i + 1);
        frac = if len == 3 {
            f
        } else if len == 2 {
            10 * f
        } else if len == 1 {
            100 * f
        } else {
            0
        };
        proof {
            assert(f == digits_value(fd));
            let fp = fraction_part(b);
            if len == 3 {
                assert(fp.len() >= 3);
            } else {
                assert(fp.len() == len);
            }
            assert(frac == fraction_value(fp));
        }
    } else {
        if i == start {
            assert(whole_part(b).len() == 0);
            return None;
        }
        assert(p == b.len());
        assert(whole_part(b) =~= b);
        assert(fraction_part(b) =~= Seq::<char>::empty());
    }
    let m = w * SCALE + frac;
    let v = if m > PARSE_LIMIT {
        PARSE_LIMIT
    } else {
        m
    };
    proof {
        let wp = whole_part(b);
        let fp = fraction_part(b);
        assert(wp =~= cs@.subrange(start as int, i as int));
        assert(all_digits(wp));
        assert(all_digits(fp)) by {
            if i < hi {
                assert forall|k: int| 0 <= k < fp.len() implies is_digit(#[trigger] fp[k]) by {
                    assert(fp[k] == cs@.subrange(i + 1, hi as int)[k]);
                }
            }
        }
        assert(wp.len() > 0 || fp.len() > 0);
        assert(frac == fraction_value(fp));
        assert(0 <= frac < 1000);
        let exact = digits_value(wp) * SCALE + fraction_value(fp);
        assert(v == clamp(exact, -PARSE_LIMIT as int, PARSE_LIMIT as int));
        assert(neg == (s.len() > 0 && s[0] == '-'));
    }
    if neg {
        Some(-v)
    } else {
        Some(v)
    }
}

} // verus!
