//! Labeled score lines in generated text, and how they move a cell's
//! dimensional position.
use vstd::prelude::*;
use crate::types::{clamp, DimensionalPosition, AXIS_LIMIT, SCALE};
use crate::parse::{find_char, find_from, opt_int, parse_number, parsed, trim, trim_bounds};
use crate::text::chars_of;

verus! {

/// Number of labels that name a dimensional axis.
pub const AXIS_LABELS: usize = 6;

/// Number of labels read from a batch reply: the axes and dopamine.
pub const BATCH_LABELS: usize = 7;

/// The line labels, in the order they are tried.
pub open spec fn label(k: int) -> Seq<char> {
    if k == 0 {
        "- EMERGENT_INTELLIGENCE:"@
    } else if k == 1 {
        "- RESOURCE_EFFICIENCY:"@
    } else if k == 2 {
        "- NETWORK_COHERENCE:"@
    } else if k == 3 {
        "- GOAL_ALIGNMENT:"@
    } else if k == 4 {
        "- TEMPORAL_RESILIENCE:"@
    } else if k == 5 {
        "- DIMENSIONAL_INTEGRATION:"@
    } else {
        "DOPAMINE:"@
    }
}

/// The axis (in `DimensionalPosition::axes` order) that label `k` sets.
pub open spec fn axis_of_label(k: int) -> int {
    if k == 0 {
        0
    } else if k == 1 {
        4
    } else if k == 2 {
        1
    } else if k == 3 {
        3
    } else if k == 4 {
        2
    } else {
        5
    }
}

pub open spec fn starts_with(t: Seq<char>, l: Seq<char>) -> bool {
    l.len() <= t.len() && t.take(l.len() as int) =~= l
}

/// The first label among `k..n` that the trimmed line `t` starts with, or `n`.
pub open spec fn first_label(t: Seq<char>, k: int, n: int) -> int
    decreases n - k,
{
    if k >= n {
        n
    } else if starts_with(t, label(k)) {
        k
    } else {
        first_label(t, k + 1, n)
    }
}

/// The number after label `k` in the trimmed line `t`: the text up to the
/// next colon, trimmed.
pub open spec fn label_value(t: Seq<char>, k: int) -> Option<int> {
    let rest = t.skip(label(k).len() as int);
    parsed(trim(rest.take(find_from(rest, ':', 0))))
}

/// `p` with axis `a` set to `v`.
pub open spec fn with_axis(p: DimensionalPosition, a: int, v: i64) -> DimensionalPosition {
    if a == 0 {
        DimensionalPosition { emergence: v, ..p }
    } else if a == 1 {
        DimensionalPosition { coherence: v, ..p }
    } else if a == 2 {
        DimensionalPosition { resilience: v, ..p }
    } else if a == 3 {
        DimensionalPosition { intelligence: v, ..p }
    } else if a == 4 {
        DimensionalPosition { efficiency: v, ..p }
    } else {
        DimensionalPosition { integration: v, ..p }
    }
}

/// Effect of one line of a single generated thought: a recognized axis
/// label with a number sets that axis to the number clamped to
/// `[-100, 100]`; any other line changes nothing.
pub open spec fn scored_line(p: DimensionalPosition, line: Seq<char>) -> DimensionalPosition {
    let t = trim(line);
    let k = first_label(t, 0, AXIS_LABELS as int);
    if k < AXIS_LABELS {
        match label_value(t, k) {
            Some(v) => with_axis(p, axis_of_label(k), clamp(v, -AXIS_LIMIT as int, AXIS_LIMIT as int) as i64),
            None => p,
        }
    } else {
        p
    }
}

/// Effect of the lines of `text`, first to last (lines end at `'\n'`).
pub open spec fn scored_text(p: DimensionalPosition, text: Seq<char>) -> DimensionalPosition
    decreases text.len(),
{
    let n = find_from(text, '\n', 0);
    if 0 <= n < text.len() {
        scored_text(scored_line(p, text.take(n)), text.skip(n + 1))
    } else {
        scored_line(p, text)
    }
}

/// Effect of one line of a batch reply on a position and a dopamine level:
/// an axis label sets its axis to the number clamped to `[-100, 100]`, or
/// to zero where none parses; the dopamine label sets dopamine, or `0.5`
/// where none parses.
pub open spec fn batch_line(s: (DimensionalPosition, i64), line: Seq<char>) -> (DimensionalPosition, i64) {
    let t = trim(line);
    let k = first_label(t, 0, BATCH_LABELS as int);
    if k < AXIS_LABELS {
        let v = match label_value(t, k) {
            Some(v) => clamp(v, -AXIS_LIMIT as int, AXIS_LIMIT as int) as i64,
            None => 0,
        };
        (with_axis(s.0, axis_of_label(k), v), s.1)
    } else if k < BATCH_LABELS {
        let v = match label_value(t, k) {
            Some(v) => v as i64,
            None => (SCALE / 2) as i64,
        };
        (s.0, v)
    } else {
        s
    }
}

/// Effect of the lines of a batch reply, first to last.
pub open spec fn batch_text(s: (DimensionalPosition, i64), text: Seq<char>) -> (DimensionalPosition, i64)
    decreases text.len(),
{
    let n = find_from(text, '\n', 0);
    if 0 <= n < text.len() {
        batch_text(batch_line(s, text.take(n)), text.skip(n + 1))
    } else {
        batch_line(s, text)
    }
}

/// The characters of label `k`.
fn label_chars(k: usize) -> (r: Vec<char>)
    requires
        k < BATCH_LABELS,
    ensures
        r@ == label(k as int),
{
    if k == 0 {
        chars_of("- EMERGENT_INTELLIGENCE:")
    } else if k == 1 {
        chars_of("- RESOURCE_EFFICIENCY:")
    } else if k == 2 {
        chars_of("- NETWORK_COHERENCE:")
    } else if k == 3 {
        chars_of("- GOAL_ALIGNMENT:")
    } else if k == 4 {
        chars_of("- TEMPORAL_RESILIENCE:")
    } else if k == 5 {
        chars_of("- DIMENSIONAL_INTEGRATION:")
    } else {
        chars_of("DOPAMINE:")
    }
}

/// Whether `cs[lo..hi]` starts with `l`.
fn has_prefix(cs: &Vec<char>, lo: usize, hi: usize, l: &Vec<char>) -> (r: bool)
    requires
        lo <= hi <= cs.len(),
    ensures
        r == starts_with(cs@.subrange(lo as int, hi as int), l@),
{
    let ghost t = cs@.subrange(lo as int, hi as int);
    if l.len() > hi - lo {
        return false;
    }
    let mut i: usize = 0;
    while i < l.len()
        invariant
            l.len() <= hi - lo,
            lo <= hi <= cs.len(),
            t == cs@.subrange(lo as int, hi as int),
            i <= l.len(),
            forall|j: int| 0 <= j < i ==> t[j] == l@[j],
        decreases l.len() - i,
    {
        if cs[lo + i] != l[i] {
            assert(t.take(l.len() as int)[i as int] != l@[i as int]);
            return false;
        }
        i = i + 1;
    }
    assert(t.take(l.len() as int) =~= l@);
    true
}

/// Which of labels `0..n` the trimmed line `cs[a..b]` starts with (`n` if
/// none), and the number after it.
fn read_label(cs: &Vec<char>, a: usize, b: usize, n: usize) -> (r: (usize, Option<i64>))
    requires
        a <= b <= cs.len(),
        n <= BATCH_LABELS,
    ensures
        r.0 == first_label(cs@.subrange(a as int, b as int), 0, n as int),
        r.0 < n ==> opt_int(r.1) == label_value(cs@.subrange(a as int, b as int), r.0 as int),
{
    let ghost t = cs@.subrange(a as int, b as int);
    let mut k: usize = 0;
    while k < n
        invariant
            k <= n <= BATCH_LABELS,
            a <= b <= cs.len(),
            t == cs@.subrange(a as int, b as int),
            first_label(t, 0, n as int) == first_label(t, k as int, n as int),
        decreases n - k,
    {
        let l = label_chars(k);
        if has_prefix(cs, a, b, &l) {
            let start = a + l.len();
            let colon = find_char(cs, start, b, ':');
            let (fa, fb) = trim_bounds(cs, start, colon);
            let v = parse_number(cs, fa, fb);
            proof {
                let rest = t.skip(label(k as int).len() as int);
                assert(rest =~= cs@.subrange(start as int, b as int));
                assert(rest.take(find_from(rest, ':', 0)) =~= cs@.subrange(start as int, colon as int));
            }
            return (k, v);
        }
        k = k + 1;
    }
    (n, None)
}

/// `p` with axis `a` set to `v`.
fn set_axis(p: &mut DimensionalPosition, a: usize, v: i64)
    ensures
        *final(p) == with_axis(*old(p), a as int, v),
{
    if a == 0 {
        p.emergence = v;
    } else if a == 1 {
        p.coherence = v;
    } else if a == 2 {
        p.resilience = v;
    } else if a == 3 {
        p.intelligence = v;
    } else if a == 4 {
        p.efficiency = v;
    } else {
        p.integration = v;
    }
}

fn axis_index(k: usize) -> (r: usize)
    ensures
        r == axis_of_label(k as int),
{
    if k == 0 {
        0
    } else if k == 1 {
        4
    } else if k == 2 {
        1
    } else if k == 3 {
        3
    } else if k == 4 {
        2
    } else {
        5
    }
}

/// Applies the labeled score lines of one generated thought to `p`.
pub fn apply_scored_lines(p: &mut DimensionalPosition, text: &str)
    ensures
        *final(p) == scored_text(*old(p), text@),
{
    let cs = chars_of(text);
    let len = cs.len();
    let mut start: usize = 0;
    assert(cs@.skip(0) =~= cs@);
    loop
        invariant
            start <= len == cs.len(),
            cs@ == text@,
            scored_text(*old(p), text@) == scored_text(*p, cs@.skip(start as int)),
        decreases len - start,
    {
        let nl = find_char(&cs, start, len, '\n');
        let ghost rest = cs@.skip(start as int);
        assert(rest =~= cs@.subrange(start as int, len as int));
        let (a, b) = trim_bounds(&cs, start, nl);
        let (k, v) = read_label(&cs, a, b, AXIS_LABELS);
        let ghost before = *p;
        if k < AXIS_LABELS {
            match v {
                Some(x) => {
                    let c = if x < -AXIS_LIMIT {
                        -AXIS_LIMIT
                    } else if x > AXIS_LIMIT {
                        AXIS_LIMIT
                    } else {
                        x
                    };
                    set_axis(p, axis_index(k), c);
                },
                None => {},
            }
        }
        proof {
            assert(rest.take(nl - start) =~= cs@.subrange(start as int, nl as int));
            assert(*p == scored_line(before, rest.take(nl - start)));
        }
        if nl == len {
            return;
        }
        assert(rest.skip(nl - start + 1) =~= cs@.skip(nl + 1));
        start = nl + 1;
    }
}

/// Applies the labeled lines of a batch reply to a position and a
/// dopamine level.
pub fn apply_batch_lines(p: &mut DimensionalPosition, dopamine: &mut i64, text: &str)
    ensures
        (*final(p), *final(dopamine)) == batch_text((*old(p), *old(dopamine)), text@),
{
    let cs = chars_of(text);
    let len = cs.len();
    let mut start: usize = 0;
    assert(cs@.skip(0) =~= cs@);
    loop
        invariant
            start <= len == cs.len(),
            cs@ == text@,
            batch_text((*old(p), *old(dopamine)), text@) == batch_text(
                (*p, *dopamine),
                cs@.skip(start as int),
            ),
        decreases len - start,
    {
        let nl = find_char(&cs, start, len, '\n');
        let ghost rest = cs@.skip(start as int);
        assert(rest =~= cs@.subrange(start as int, len as int));
        let (a, b) = trim_bounds(&cs, start, nl);
        let (k, v) = read_label(&cs, a, b, BATCH_LABELS);
        let ghost before = (*p, *dopamine);
        if k < AXIS_LABELS {
            let x = match v {
                Some(x) => if x < -AXIS_LIMIT {
                    -AXIS_LIMIT
                } else if x > AXIS_LIMIT {
                    AXIS_LIMIT
                } else {
                    x
                },
                None => 0,
            };
            set_axis(p, axis_index(k), x);
        } else if k < BATCH_LABELS {
            *dopamine = match v {
                Some(x) => x,
                None => SCALE / 2,
            };
        }
        proof {
            assert(rest.take(nl - start) =~= cs@.subrange(start as int, nl as int));
            assert((*p, *dopamine) == batch_line(before, rest.take(nl - start)));
        }
        if nl == len {
            return;
        }
        assert(rest.skip(nl - start + 1) =~= cs@.skip(nl + 1));
        start = nl + 1;
    }
}

/// Number after label `l` on a trimmed line `t` that starts with it: the
/// text up to the next colon, trimmed.
pub open spec fn value_after(t: Seq<char>, l: Seq<char>) -> Option<int> {
    let rest = t.skip(l.len() as int);
    parsed(trim(rest.take(find_from(rest, ':', 0))))
}

/// The number on the first line of `text` whose trimmed form starts with
/// `l`, or `None` where no line does or its number does not parse.
pub open spec fn first_labeled(text: Seq<char>, l: Seq<char>) -> Option<int>
    decreases text.len(),
{
    let n = find_from(text, '\n', 0);
    let t = trim(text.take(n));
    if starts_with(t, l) {
        value_after(t, l)
    } else if 0 <= n < text.len() {
        first_labeled(text.skip(n + 1), l)
    } else {
        None
    }
}

/// The number (in thousandths) labeled `label` in a free-text reply: see
/// `first_labeled`.
pub fn labeled_number(text: &str, label: &str) -> (r: Option<i64>)
    ensures
        opt_int(r) == first_labeled(text@, label@),
{
    let cs = chars_of(text);
    let l = chars_of(label);
    let len = cs.len();
    let mut start: usize = 0;
    assert(cs@.skip(0) =~= cs@);
    loop
        invariant
            start <= len == cs.len(),
            cs@ == text@,
            l@ == label@,
            first_labeled(text@, label@) == first_labeled(cs@.skip(start as int), l@),
        decreases len - start,
    {
        let nl = find_char(&cs, start, len, '\n');
        let ghost rest = cs@.skip(start as int);
        assert(rest =~= cs@.subrange(start as int, len as int));
        let (a, b) = trim_bounds(&cs, start, nl);
        assert(rest.take(nl - start) =~= cs@.subrange(start as int, nl as int));
        if has_prefix(&cs, a, b, &l) {
            let from = a + l.len();
            let colon = find_char(&cs, from, b, ':');
            let (fa, fb) = trim_bounds(&cs, from, colon);
            proof {
                let t = cs@.subrange(a as int, b as int);
                let r2 = t.skip(l@.len() as int);
                assert(r2 =~= cs@.subrange(from as int, b as int));
                assert(r2.take(find_from(r2, ':', 0)) =~= cs@.subrange(from as int, colon as int));
            }
            return parse_number(&cs, fa, fb);
        }
        if nl == len {
            return None;
        }
        assert(rest.skip(nl - start + 1) =~= cs@.skip(nl + 1));
        start = nl + 1;
    }
}

/// A line of a generated thought that carries no recognized axis label
/// leaves every axis as it was.
pub proof fn lemma_unlabeled_line_keeps_axes(p: DimensionalPosition, line: Seq<char>)
    requires
        first_label(trim(line), 0, AXIS_LABELS as int) == AXIS_LABELS,
    ensures
        scored_line(p, line) == p,
{
}

/// A line with a recognized axis label changes that axis alone, and only
/// to the number it carries clamped to `[-100, 100]`; every other axis is
/// left as it was.
pub proof fn lemma_labeled_line_sets_one_axis(p: DimensionalPosition, line: Seq<char>, a: int)
    requires
        0 <= a < 6,
    ensures
        ({
            let t = trim(line);
            let k = first_label(t, 0, AXIS_LABELS as int);
            let q = scored_line(p, line);
            if k < AXIS_LABELS && axis_of_label(k) == a && label_value(t, k) is Some {
                q.axes()[a] == clamp(
                    label_value(t, k)->0,
                    -AXIS_LIMIT as int,
                    AXIS_LIMIT as int,
                )
            } else {
                q.axes()[a] == p.axes()[a]
            }
        }),
{
}

/// In a batch reply, a line with a recognized axis label sets that axis
/// alone: to the number it carries clamped to `[-100, 100]`, or to zero
/// where none parses. Every other axis is left as it was.
pub proof fn lemma_batch_line_sets_one_axis(s: (DimensionalPosition, i64), line: Seq<char>, a: int)
    requires
        0 <= a < 6,
    ensures
        ({
            let t = trim(line);
            let k = first_label(t, 0, BATCH_LABELS as int);
            let q = batch_line(s, line).0;
            if k < AXIS_LABELS && axis_of_label(k) == a {
                q.axes()[a] == match label_value(t, k) {
                    Some(v) => clamp(v, -AXIS_LIMIT as int, AXIS_LIMIT as int),
                    None => 0,
                }
            } else {
                q.axes()[a] == s.0.axes()[a]
            }
        }),
{
}

/// Reading the labeled lines of a batch reply keeps every axis in
/// `[-100, 100]`.
pub proof fn lemma_batch_text_in_range(s: (DimensionalPosition, i64), text: Seq<char>)
    requires
        s.0.in_range(),
    ensures
        batch_text(s, text).0.in_range(),
    decreases text.len(),
{
    let n = find_from(text, '\n', 0);
    let q = batch_line(s, text.take(n));
    assert(q.0.in_range()) by {
        assert forall|a: int| 0 <= a < 6 implies -AXIS_LIMIT <= #[trigger] q.0.axes()[a]
            <= AXIS_LIMIT by {
            lemma_batch_line_sets_one_axis(s, text.take(n), a);
        }
    }
    if 0 <= n < text.len() {
        lemma_batch_text_in_range(q, text.skip(n + 1));
    } else {
        let r = batch_line(s, text);
        assert forall|a: int| 0 <= a < 6 implies -AXIS_LIMIT <= #[trigger] r.0.axes()[a]
            <= AXIS_LIMIT by {
            lemma_batch_line_sets_one_axis(s, text, a);
        }
    }
}

/// The value that one line of a generated thought gives axis `a`: its
/// number clamped to `[-100, 100]` where the line carries a recognized
/// label for `a` and a number; otherwise none.
pub open spec fn scored_line_axis(line: Seq<char>, a: int) -> Option<int> {
    let t = trim(line);
    let k = first_label(t, 0, AXIS_LABELS as int);
    if k < AXIS_LABELS && axis_of_label(k) == a {
        match label_value(t, k) {
            Some(v) => Some(clamp(v, -AXIS_LIMIT as int, AXIS_LIMIT as int)),
            None => None,
        }
    } else {
        None
    }
}

/// Axis `a`, starting at `v`, after the lines of `text`: the value of the
/// last line that gives it one, or `v` where none does.
pub open spec fn last_scored_value(v: int, text: Seq<char>, a: int) -> int
    decreases text.len(),
{
    let n = find_from(text, '\n', 0);
    let w = match scored_line_axis(text.take(n), a) {
        Some(x) => x,
        None => v,
    };
    if 0 <= n < text.len() {
        last_scored_value(w, text.skip(n + 1), a)
    } else {
        w
    }
}

/// Over a whole generated thought, each axis ends with the clamped number
/// of the last line labeled for it, and keeps its value where no line is.
pub proof fn lemma_scored_text_last_line_wins(p: DimensionalPosition, text: Seq<char>, a: int)
    requires
        0 <= a < 6,
    ensures
        scored_text(p, text).axes()[a] == last_scored_value(p.axes()[a], text, a),
    decreases text.len(),
{
    let n = find_from(text, '\n', 0);
    crate::parse::lemma_find_from(text, '\n', 0);
    lemma_labeled_line_sets_one_axis(p, text.take(n), a);
    let q = scored_line(p, text.take(n));
    assert(q.axes()[a] == match scored_line_axis(text.take(n), a) {
        Some(x) => x,
        None => p.axes()[a],
    });
    if 0 <= n < text.len() {
        lemma_scored_text_last_line_wins(q, text.skip(n + 1), a);
    } else {
        assert(text.take(n) =~= text);
    }
}

/// The value that one line of a batch reply gives axis `a`: its number
/// clamped to `[-100, 100]`, or zero where none parses, where the line
/// carries a recognized label for `a`; otherwise none.
pub open spec fn batch_line_axis(line: Seq<char>, a: int) -> Option<int> {
    let t = trim(line);
    let k = first_label(t, 0, BATCH_LABELS as int);
    if k < AXIS_LABELS && axis_of_label(k) == a {
        Some(
            match label_value(t, k) {
                Some(v) => clamp(v, -AXIS_LIMIT as int, AXIS_LIMIT as int),
                None => 0,
            },
        )
    } else {
        None
    }
}

/// Axis `a`, starting at `v`, after the lines of a batch reply: the value
/// of the last line labeled for it, or `v` where none is.
pub open spec fn last_batch_value(v: int, text: Seq<char>, a: int) -> int
    decreases text.len(),
{
    let n = find_from(text, '\n', 0);
    let w = match batch_line_axis(text.take(n), a) {
        Some(x) => x,
        None => v,
    };
    if 0 <= n < text.len() {
        last_batch_value(w, text.skip(n + 1), a)
    } else {
        w
    }
}

/// Over a whole batch reply, each axis ends with the clamped number of the
/// last line labeled for it, and keeps its value where no line is.
pub proof fn lemma_batch_text_last_line_wins(s: (DimensionalPosition, i64), text: Seq<char>, a: int)
    requires
        0 <= a < 6,
    ensures
        batch_text(s, text).0.axes()[a] == last_batch_value(s.0.axes()[a], text, a),
    decreases text.len(),
{
    let n = find_from(text, '\n', 0);
    crate::parse::lemma_find_from(text, '\n', 0);
    lemma_batch_line_sets_one_axis(s, text.take(n), a);
    let q = batch_line(s, text.take(n));
    assert(q.0.axes()[a] == match batch_line_axis(text.take(n), a) {
        Some(x) => x,
        None => s.0.axes()[a],
    });
    if 0 <= n < text.len() {
        lemma_batch_text_last_line_wins(q, text.skip(n + 1), a);
    } else {
        assert(text.take(n) =~= text);
    }
}

/// Reading the labeled lines of a generated thought keeps every axis in
/// `[-100, 100]`.
pub proof fn lemma_scored_text_in_range(p: DimensionalPosition, text: Seq<char>)
    requires
        p.in_range(),
    ensures
        scored_text(p, text).in_range(),
    decreases text.len(),
{
    let n = find_from(text, '\n', 0);
    let q = scored_line(p, text.take(n));
    assert(q.in_range()) by {
        assert forall|a: int| 0 <= a < 6 implies -AXIS_LIMIT <= #[trigger] q.axes()[a]
            <= AXIS_LIMIT by {
            lemma_labeled_line_sets_one_axis(p, text.take(n), a);
        }
    }
    if 0 <= n < text.len() {
        lemma_scored_text_in_range(q, text.skip(n + 1));
    } else {
        let r = scored_line(p, text);
        assert forall|a: int| 0 <= a < 6 implies -AXIS_LIMIT <= #[trigger] r.axes()[a]
            <= AXIS_LIMIT by {
            lemma_labeled_line_sets_one_axis(p, text, a);
        }
    }
}

} // verus!
