//! Character-level helpers over text.
use vstd::prelude::*;

verus! {

broadcast use vstd::string::group_string_axioms;

/// The characters of `s`, in order.
pub fn chars_of(s: &str) -> (r: Vec<char>)
    ensures
        r@ == s@,
{
    let mut v: Vec<char> = Vec::new();
    for c in it: s.chars()
        invariant
            it.seq() == s@,
            v@ == s@.take(it.index() as int),
    {
        v.push(c);
    }
    assert(v@ =~= s@);
    v
}

/// `p` occurs in `s` at index `i`.
pub open spec fn occurs_at(s: Seq<char>, p: Seq<char>, i: int) -> bool {
    0 <= i && i + p.len() <= s.len() && s.subrange(i, i + p.len()) == p
}

/// `p` occurs somewhere in `s` (the empty text occurs everywhere).
pub open spec fn contains_text(s: Seq<char>, p: Seq<char>) -> bool {
    exists|i: int| occurs_at(s, p, i)
}

/// Whether `p` occurs in `s`.
pub fn contains_chars(s: &Vec<char>, p: &Vec<char>) -> (r: bool)
    ensures
        r == contains_text(s@, p@),
{
    if p.len() > s.len() {
        assert forall|i: int| !occurs_at(s@, p@, i) by {}
        return false;
    }
    let last = s.len() - p.len();
    let mut i: usize = 0;
    while i <= last
        invariant
            last == s.len() - p.len(),
            p.len() <= s.len(),
            forall|j: int| 0 <= j < i ==> !occurs_at(s@, p@, j),
        decreases last + 1 - i,
    {
        let mut k: usize = 0;
        let mut same = true;
        while k < p.len() && same
            invariant
                i <= last,
                last == s.len() - p.len(),
                k <= p.len(),
                same ==> forall|m: int| 0 <= m < k ==> s@[i + m] == p@[m],
                !same ==> !occurs_at(s@, p@, i as int),
            decreases p.len() - k + if same { 1int } else { 0int },
        {
            if s[i + k] != p[k] {
                same = false;
                assert(s@.subrange(i as int, i + p.len())[k as int] != p@[k as int]);
            } else {
                k = k + 1;
            }
        }
        if same {
            assert(s@.subrange(i as int, i + p.len()) =~= p@);
            assert(occurs_at(s@, p@, i as int));
            return true;
        }
        if i == last {
            assert forall|j: int| !occurs_at(s@, p@, j) by {
                if 0 <= j <= last {
                    assert(j < i + 1);
                }
            }
            return false;
        }
        i = i + 1;
    }
    assert forall|j: int| !occurs_at(s@, p@, j) by {}
    false
}

/// `s` with every occurrence of `p` (nonempty), taken left to right
/// without overlap, replaced by `q`.
pub open spec fn replaced(s: Seq<char>, p: Seq<char>, q: Seq<char>) -> Seq<char>
    decreases s.len(),
{
    if p.len() == 0 || s.len() < p.len() {
        s
    } else if s.take(p.len() as int) == p {
        q + replaced(s.skip(p.len() as int), p, q)
    } else {
        seq![s[0]] + replaced(s.skip(1), p, q)
    }
}

/// `s` with every occurrence of the nonempty text `p` replaced by `q`.
pub fn replace_text(s: &str, p: &str, q: &str) -> (r: String)
    requires
        p@.len() > 0,
    ensures
        r@ == replaced(s@, p@, q@),
{
    let cs = chars_of(s);
    let ps = chars_of(p);
    let n = cs.len();
    let m = ps.len();
    let mut out = String::new();
    let mut start: usize = 0;
    let mut i: usize = 0;
    assert(cs@.skip(0) =~= cs@);
    while i < n
        invariant
            n == cs@.len(),
            cs@ == s@,
            ps@ == p@,
            m == ps@.len() > 0,
            start <= i <= n,
            out@ + cs@.subrange(start as int, i as int) + replaced(cs@.skip(i as int), p@, q@)
                == replaced(s@, p@, q@),
        decreases n - i,
    {
        let mut hit = m <= n - i;
        let mut k: usize = 0;
        while hit && k < m
            invariant
                m == ps@.len(),
                k <= m,
                hit ==> m <= n - i,
                hit ==> forall|j: int| 0 <= j < k ==> cs@[i + j] == ps@[j],
                !hit ==> m > n - i || cs@.skip(i as int).take(m as int) != ps@,
                n == cs@.len(),
            decreases m - k + if hit { 1int } else { 0int },
        {
            if cs[i + k] != ps[k] {
                hit = false;
                assert(cs@.skip(i as int).take(m as int)[k as int] != ps@[k as int]);
            } else {
                k = k + 1;
            }
        }
        let ghost rest = cs@.skip(i as int);
        if hit {
            assert(rest.take(m as int) =~= ps@);
            assert(rest.skip(m as int) =~= cs@.skip(i + m));
            out.append(s.substring_char(start, i));
            out.append(q);
            proof {
                assert(cs@.subrange(i + m, i + m) =~= Seq::<char>::empty());
                assert(out@ + cs@.subrange((i + m) as int, (i + m) as int) + replaced(cs@.skip(i + m), p@, q@)
                    =~= (out@ + replaced(cs@.skip(i + m), p@, q@)));
            }
            i = i + m;
            start = i;
        } else {
            assert(rest.skip(1) =~= cs@.skip(i + 1));
            assert(cs@.subrange(start as int, i + 1) =~= cs@.subrange(start as int, i as int).push(cs@[i as int]));
            proof {
                if rest.len() < ps@.len() {
                    assert(replaced(rest, p@, q@) == rest);
                    if rest.len() > 1 {
                        assert(replaced(rest.skip(1), p@, q@) == rest.skip(1));
                    }
                }
            }
            i = i + 1;
        }
    }
    out.append(s.substring_char(start, n));
    proof {
        assert(cs@.skip(n as int) =~= Seq::<char>::empty());
    }
    out
}

/// Whether the text `p` occurs in the text `s`.
pub fn contains_str(s: &str, p: &str) -> (r: bool)
    ensures
        r == contains_text(s@, p@),
{
    contains_chars(&chars_of(s), &chars_of(p))
}

/// The character of decimal digit `d`.
pub open spec fn digit_char(d: int) -> char {
    seq!['0', '1', '2', '3', '4', '5', '6', '7', '8', '9'][d]
}

/// Decimal digits of `n`, most significant first, without leading zeros.
pub open spec fn decimal_digits(n: nat) -> Seq<char>
    decreases n,
{
    if n < 10 {
        seq![digit_char(n as int)]
    } else {
        decimal_digits(n / 10).push(digit_char((n % 10) as int))
    }
}

/// Decimal text of `n`, with a minus sign where it is negative.
pub open spec fn decimal(n: int) -> Seq<char> {
    if n < 0 {
        seq!['-'] + decimal_digits((-n) as nat)
    } else {
        decimal_digits(n as nat)
    }
}

fn digit_text(d: u64) -> (r: &'static str)
    requires
        d < 10,
    ensures
        r@ == seq![digit_char(d as int)],
{
    proof {
        reveal_strlit("0123456789");
    }
    let r = "0123456789".substring_char(d as usize, d as usize + 1);
    assert(r@ =~= seq![digit_char(d as int)]);
    r
}

/// Decimal digits of `n`.
pub fn digits_text(n: u64) -> (r: String)
    ensures
        r@ == decimal_digits(n as nat),
    decreases n,
{
    if n < 10 {
        digit_text(n).to_string()
    } else {
        let mut s = digits_text(n / 10);
        s.append(digit_text(n % 10));
        s
    }
}

/// Decimal text of `n`, with a minus sign where it is negative.
pub fn decimal_text(n: i64) -> (r: String)
    ensures
        r@ == decimal(n as int),
{
    if n < 0 {
        proof {
            reveal_strlit("-");
        }
        let mut s = "-".to_string();
        assert(s@ =~= seq!['-']);
        s.append(digits_text((-(n as i128)) as u64).as_str());
        s
    } else {
        digits_text(n as u64)
    }
}


} // verus!
