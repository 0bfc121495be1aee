//! Scores over dimensional positions: complement, balance, and the nudges
//! that batches, audits and context alignment apply.
use vstd::prelude::*;
use crate::types::{clamp, DimensionalPosition, AXIS_LIMIT, SCALE};

verus! {

pub open spec fn abs(v: int) -> int {
    if v < 0 {
        -v
    } else {
        v
    }
}

/// `a / n` rounded toward zero, as Rust's integer division does.
pub open spec fn trunc_div(a: int, n: int) -> int {
    if a >= 0 {
        a / n
    } else {
        -((-a) / n)
    }
}

/// `a / n` rounded toward zero.
pub fn div_toward_zero(a: i128, n: i128) -> (r: i128)
    requires
        n > 0,
        a > i128::MIN,
    ensures
        r == trunc_div(a as int, n as int),
{
    if a >= 0 {
        a / n
    } else {
        -((-a) / n)
    }
}

/// Sum over the six axes of the magnitude of `a`'s axis plus `b`'s.
pub open spec fn complement_total(a: DimensionalPosition, b: DimensionalPosition) -> int {
    abs(a.emergence + b.emergence) + abs(a.coherence + b.coherence) + abs(
        a.resilience + b.resilience,
    ) + abs(a.intelligence + b.intelligence) + abs(a.efficiency + b.efficiency) + abs(
        a.integration + b.integration,
    )
}

/// How well two positions balance each other, in thousandths: one minus
/// the complement total over its largest value (six axes of span 200).
pub open spec fn complement(a: DimensionalPosition, b: DimensionalPosition) -> int {
    SCALE - complement_total(a, b) / 1200
}

fn abs_i128(v: i128) -> (r: i128)
    requires
        v > i128::MIN,
    ensures
        r == abs(v as int),
{
    if v < 0 {
        -v
    } else {
        v
    }
}

/// Complement score of two positions, in thousandths.
pub fn calculate_dimensional_complement(a: &DimensionalPosition, b: &DimensionalPosition) -> (r: i64)
    ensures
        r == complement(*a, *b),
{
    let t = abs_i128(a.emergence as i128 + b.emergence as i128) + abs_i128(
        a.coherence as i128 + b.coherence as i128,
    ) + abs_i128(a.resilience as i128 + b.resilience as i128) + abs_i128(
        a.intelligence as i128 + b.intelligence as i128,
    ) + abs_i128(a.efficiency as i128 + b.efficiency as i128) + abs_i128(
        a.integration as i128 + b.integration as i128,
    );
    (SCALE as i128 - t / 1200) as i64
}

/// The complement score is symmetric, and for positions with every axis in
/// `[-100, 100]` it lies in `[0, 1]`.
pub proof fn lemma_complement_symmetric_bounded(a: DimensionalPosition, b: DimensionalPosition)
    ensures
        complement(a, b) == complement(b, a),
        a.in_range() && b.in_range() ==> 0 <= complement(a, b) <= SCALE,
{
    if a.in_range() && b.in_range() {
        assert(a.axes()[0] == a.emergence && b.axes()[0] == b.emergence);
        assert(a.axes()[1] == a.coherence && b.axes()[1] == b.coherence);
        assert(a.axes()[2] == a.resilience && b.axes()[2] == b.resilience);
        assert(a.axes()[3] == a.intelligence && b.axes()[3] == b.intelligence);
        assert(a.axes()[4] == a.efficiency && b.axes()[4] == b.efficiency);
        assert(a.axes()[5] == a.integration && b.axes()[5] == b.integration);
        assert(0 <= complement_total(a, b) <= 1200 * SCALE);
    }
}

/// Mean magnitude of the six axes of `p`.
pub open spec fn axis_imbalance(p: DimensionalPosition) -> int {
    (abs(p.emergence as int) + abs(p.coherence as int) + abs(p.resilience as int) + abs(
        p.intelligence as int,
    ) + abs(p.efficiency as int) + abs(p.integration as int)) / 6
}

/// Mean magnitude of the six axes of `p`; zero for a perfectly balanced
/// position.
pub fn imbalance_of(p: &DimensionalPosition) -> (r: u64)
    ensures
        r == axis_imbalance(*p),
{
    let t = abs_i128(p.emergence as i128) + abs_i128(p.coherence as i128) + abs_i128(
        p.resilience as i128,
    ) + abs_i128(p.intelligence as i128) + abs_i128(p.efficiency as i128) + abs_i128(
        p.integration as i128,
    );
    (t / 6) as u64
}

/// Sum of axis `k` over the positions `ps`.
pub open spec fn axis_total(ps: Seq<DimensionalPosition>, k: int) -> int
    decreases ps.len(),
{
    if ps.len() == 0 {
        0
    } else {
        axis_total(ps.drop_last(), k) + ps.last().axes()[k]
    }
}

/// Average of `ps`, each axis rounded toward zero (all zero for no
/// positions).
pub open spec fn average_position(ps: Seq<DimensionalPosition>) -> DimensionalPosition {
    if ps.len() == 0 {
        DimensionalPosition {
            emergence: 0,
            coherence: 0,
            resilience: 0,
            intelligence: 0,
            efficiency: 0,
            integration: 0,
        }
    } else {
        DimensionalPosition {
            emergence: trunc_div(axis_total(ps, 0), ps.len() as int) as i64,
            coherence: trunc_div(axis_total(ps, 1), ps.len() as int) as i64,
            resilience: trunc_div(axis_total(ps, 2), ps.len() as int) as i64,
            intelligence: trunc_div(axis_total(ps, 3), ps.len() as int) as i64,
            efficiency: trunc_div(axis_total(ps, 4), ps.len() as int) as i64,
            integration: trunc_div(axis_total(ps, 5), ps.len() as int) as i64,
        }
    }
}

proof fn lemma_axis_total_bound(ps: Seq<DimensionalPosition>, k: int)
    requires
        0 <= k < 6,
    ensures
        ps.len() * (i64::MIN as int) <= axis_total(ps, k) <= ps.len() * (i64::MAX as int),
    decreases ps.len(),
{
    if ps.len() > 0 {
        lemma_axis_total_bound(ps.drop_last(), k);
        let l = ps.last();
        assert(l.axes()[k] >= i64::MIN && l.axes()[k] <= i64::MAX);
    }
}

pub proof fn lemma_trunc_div_range(a: int, n: int, lo: int, hi: int)
    requires
        n > 0,
        n * lo <= a <= n * hi,
        lo <= 0 <= hi,
    ensures
        lo <= trunc_div(a, n) <= hi,
{
    if a >= 0 {
        assert(0 <= a / n <= hi) by (nonlinear_arith)
            requires
                0 <= a <= n * hi,
                n > 0,
        ;
    } else {
        assert(n * (-lo) == -(n * lo)) by (nonlinear_arith);
        assert(0 <= (-a) / n <= -lo) by (nonlinear_arith)
            requires
                0 <= -a <= n * (-lo),
                n > 0,
        ;
    }
}

/// Average position of `ps` (each axis rounded toward zero) and the
/// batch imbalance: the mean magnitude of the average's six axes.
pub fn balance_of_positions(ps: &Vec<DimensionalPosition>) -> (r: (DimensionalPosition, u64))
    requires
        ps.len() < 0x1_0000_0000,
    ensures
        r.0 == average_position(ps@),
        r.1 == axis_imbalance(average_position(ps@)),
{
    let mut s0: i128 = 0;
    let mut s1: i128 = 0;
    let mut s2: i128 = 0;
    let mut s3: i128 = 0;
    let mut s4: i128 = 0;
    let mut s5: i128 = 0;
    let mut i: usize = 0;
    while i < ps.len()
        invariant
            i <= ps.len() < 0x1_0000_0000,
            s0 == axis_total(ps@.take(i as int), 0),
            s1 == axis_total(ps@.take(i as int), 1),
            s2 == axis_total(ps@.take(i as int), 2),
            s3 == axis_total(ps@.take(i as int), 3),
            s4 == axis_total(ps@.take(i as int), 4),
            s5 == axis_total(ps@.take(i as int), 5),
        decreases ps.len() - i,
    {
        let ghost next = ps@.take(i + 1);
        proof {
            assert(next.drop_last() =~= ps@.take(i as int));
            lemma_axis_total_bound(ps@.take(i as int), 0);
            lemma_axis_total_bound(ps@.take(i as int), 1);
            lemma_axis_total_bound(ps@.take(i as int), 2);
            lemma_axis_total_bound(ps@.take(i as int), 3);
            lemma_axis_total_bound(ps@.take(i as int), 4);
            lemma_axis_total_bound(ps@.take(i as int), 5);
        }
        let p = ps[i];
        s0 = s0 + p.emergence as i128;
        s1 = s1 + p.coherence as i128;
        s2 = s2 + p.resilience as i128;
        s3 = s3 + p.intelligence as i128;
        s4 = s4 + p.efficiency as i128;
        s5 = s5 + p.integration as i128;
        i = i + 1;
    }
    assert(ps@.take(ps.len() as int) =~= ps@);
    if ps.len() == 0 {
        let z = DimensionalPosition {
            emergence: 0,
            coherence: 0,
            resilience: 0,
            intelligence: 0,
            efficiency: 0,
            integration: 0,
        };
        return (z, 0);
    }
    let n = ps.len() as i128;
    proof {
        let lo = i64::MIN as int;
        let hi = i64::MAX as int;
        lemma_axis_total_bound(ps@, 0);
        lemma_axis_total_bound(ps@, 1);
        lemma_axis_total_bound(ps@, 2);
        lemma_axis_total_bound(ps@, 3);
        lemma_axis_total_bound(ps@, 4);
        lemma_axis_total_bound(ps@, 5);
        lemma_trunc_div_range(s0 as int, n as int, lo, hi);
        lemma_trunc_div_range(s1 as int, n as int, lo, hi);
        lemma_trunc_div_range(s2 as int, n as int, lo, hi);
        lemma_trunc_div_range(s3 as int, n as int, lo, hi);
        lemma_trunc_div_range(s4 as int, n as int, lo, hi);
        lemma_trunc_div_range(s5 as int, n as int, lo, hi);
    }
    let avg = DimensionalPosition {
        emergence: div_toward_zero(s0, n) as i64,
        coherence: div_toward_zero(s1, n) as i64,
        resilience: div_toward_zero(s2, n) as i64,
        intelligence: div_toward_zero(s3, n) as i64,
        efficiency: div_toward_zero(s4, n) as i64,
        integration: div_toward_zero(s5, n) as i64,
    };
    let imb = imbalance_of(&avg);
    (avg, imb)
}

/// Step of the counter-imbalance nudge for a batch imbalance: a tenth of a
/// unit, scaled down to nothing as the imbalance reaches one unit.
pub open spec fn nudge_step(imbalance: int) -> int {
    (SCALE - clamp(imbalance, 0, SCALE as int)) / 10
}

/// `v` moved by `step` toward zero; zero itself moves down, as a value of
/// positive sign does.
pub open spec fn toward_zero(v: int, step: int) -> int {
    if v >= 0 {
        v - step
    } else {
        v + step
    }
}

/// `p` after the counter-imbalance nudge of a batch with imbalance
/// `imbalance`.
pub open spec fn nudged(p: DimensionalPosition, imbalance: int) -> DimensionalPosition {
    DimensionalPosition {
        resilience: toward_zero(p.resilience as int, nudge_step(imbalance)) as i64,
        intelligence: toward_zero(p.intelligence as int, nudge_step(imbalance)) as i64,
        efficiency: toward_zero(p.efficiency as int, nudge_step(imbalance)) as i64,
        integration: toward_zero(p.integration as int, nudge_step(imbalance)) as i64,
        ..p
    }
}

/// Moves resilience, intelligence, efficiency and integration one step
/// toward zero, against the batch imbalance.
pub fn counter_imbalance_nudge(p: &mut DimensionalPosition, imbalance: u64)
    ensures
        *final(p) == nudged(*old(p), imbalance as int),
        final(p).emergence == old(p).emergence,
        final(p).coherence == old(p).coherence,
        final(p).resilience == toward_zero(old(p).resilience as int, nudge_step(imbalance as int)),
        final(p).intelligence == toward_zero(
            old(p).intelligence as int,
            nudge_step(imbalance as int),
        ),
        final(p).efficiency == toward_zero(old(p).efficiency as int, nudge_step(imbalance as int)),
        final(p).integration == toward_zero(
            old(p).integration as int,
            nudge_step(imbalance as int),
        ),
{
    let m: i64 = if imbalance > SCALE as u64 {
        SCALE
    } else {
        imbalance as i64
    };
    let step = (SCALE - m) / 10;
    p.resilience = if p.resilience >= 0 {
        p.resilience - step
    } else {
        p.resilience + step
    };
    p.intelligence = if p.intelligence >= 0 {
        p.intelligence - step
    } else {
        p.intelligence + step
    };
    p.efficiency = if p.efficiency >= 0 {
        p.efficiency - step
    } else {
        p.efficiency + step
    };
    p.integration = if p.integration >= 0 {
        p.integration - step
    } else {
        p.integration + step
    };
}

/// Axis `v` after an adjustment of `adj` whole units: `adj` added, the
/// result clamped to `[0, 100]`.
pub open spec fn adjusted_axis(v: int, adj: int) -> int {
    clamp(v + adj * SCALE, 0, AXIS_LIMIT as int)
}

fn adjust_axis(v: i64, adj: i64) -> (r: i64)
    requires
        -1000 <= adj <= 1000,
    ensures
        r == adjusted_axis(v as int, adj as int),
{
    let step: i128 = adj as i128 * 1000;
    let t: i128 = v as i128 + step;
    if t < 0 {
        0
    } else if t > AXIS_LIMIT as i128 {
        AXIS_LIMIT
    } else {
        t as i64
    }
}

/// Whole-unit adjustment of an axis of weight `w` for a plan of which
/// `completed` of `total` nodes are nearly done: a tenth of the execution
/// rate times the weight, rounded down.
pub open spec fn audit_step(completed: int, total: int, w: int) -> int {
    if total > 0 {
        (completed * w) / (10 * total)
    } else {
        0
    }
}

/// Weight of each axis in the plan audit.
pub open spec fn audit_weight(k: int) -> int {
    if k == 0 {
        10
    } else if k == 1 {
        8
    } else if k == 2 {
        5
    } else if k == 3 {
        7
    } else if k == 4 {
        6
    } else {
        9
    }
}

fn audit_step_exec(completed: u64, total: u64, w: u64) -> (r: i64)
    requires
        completed <= total,
        w <= 10,
    ensures
        r == audit_step(completed as int, total as int, w as int),
        0 <= r <= 1,
{
    if total == 0 {
        0
    } else {
        assert(completed * w <= 10 * total) by (nonlinear_arith)
            requires
                completed <= total,
                w <= 10,
        ;
        assert((completed * w) / (10 * total) <= 1) by (nonlinear_arith)
            requires
                completed * w <= 10 * total,
                total > 0,
        ;
        ((completed as u128 * w as u128) / (10 * total as u128)) as i64
    }
}

/// Moves every axis up by its audit step for a plan with `completed` of
/// `total` nodes nearly done, clamping to `[0, 100]`.
pub fn audit_position(p: &mut DimensionalPosition, completed: u64, total: u64)
    requires
        completed <= total,
    ensures
        forall|k: int|
            0 <= k < 6 ==> #[trigger] final(p).axes()[k] == adjusted_axis(
                old(p).axes()[k],
                audit_step(completed as int, total as int, audit_weight(k)),
            ),
{
    p.emergence = adjust_axis(p.emergence, audit_step_exec(completed, total, 10));
    p.coherence = adjust_axis(p.coherence, audit_step_exec(completed, total, 8));
    p.resilience = adjust_axis(p.resilience, audit_step_exec(completed, total, 5));
    p.intelligence = adjust_axis(p.intelligence, audit_step_exec(completed, total, 7));
    p.efficiency = adjust_axis(p.efficiency, audit_step_exec(completed, total, 6));
    p.integration = adjust_axis(p.integration, audit_step_exec(completed, total, 9));
}

/// Whole-unit adjustment of weight `w` for a context alignment score `a`
/// (in thousandths): twice the distance of `a` from one half, times `w`,
/// rounded toward zero.
pub open spec fn alignment_step(a: int, w: int) -> int {
    trunc_div((a - SCALE / 2) * 2 * w, SCALE as int)
}

fn alignment_step_exec(a: i64, w: i64) -> (r: i128)
    requires
        0 <= w <= 15,
    ensures
        r == alignment_step(a as int, w as int),
        -0x1_0000_0000_0000_0000 <= r <= 0x1_0000_0000_0000_0000,
{
    let d: i128 = (a as i128 - 500) * 2;
    assert(-0x100_0000_0000_0000_0000 <= d * w <= 0x100_0000_0000_0000_0000) by (nonlinear_arith)
        requires
            -0x10_0000_0000_0000_0000 <= d <= 0x10_0000_0000_0000_0000,
            0 <= w <= 15,
    ;
    let x: i128 = d * w as i128;
    div_toward_zero(x, SCALE as i128)
}

/// `p` after following a context alignment of `a`: emergence, coherence
/// and efficiency move by `alignment_step(a, 10)` units, intelligence by
/// `alignment_step(a, 15)`, each clamped to `[0, 100]`; resilience and
/// integration stay.
pub open spec fn aligned_position(p: DimensionalPosition, a: int) -> DimensionalPosition {
    DimensionalPosition {
        emergence: clamp(p.emergence + alignment_step(a, 10) * SCALE, 0, AXIS_LIMIT as int) as i64,
        coherence: clamp(p.coherence + alignment_step(a, 10) * SCALE, 0, AXIS_LIMIT as int) as i64,
        intelligence: clamp(p.intelligence + alignment_step(a, 15) * SCALE, 0, AXIS_LIMIT as int) as i64,
        efficiency: clamp(p.efficiency + alignment_step(a, 10) * SCALE, 0, AXIS_LIMIT as int) as i64,
        ..p
    }
}

/// Moves emergence, coherence, intelligence and efficiency by the context
/// alignment steps (weights 10, 10, 15, 10), clamping to `[0, 100]`;
/// resilience and integration are left as they were.
pub fn align_position(p: &mut DimensionalPosition, alignment: i64)
    ensures
        *final(p) == aligned_position(*old(p), alignment as int),
        final(p).emergence == clamp(
            old(p).emergence + alignment_step(alignment as int, 10) * SCALE,
            0,
            AXIS_LIMIT as int,
        ),
        final(p).coherence == clamp(
            old(p).coherence + alignment_step(alignment as int, 10) * SCALE,
            0,
            AXIS_LIMIT as int,
        ),
        final(p).intelligence == clamp(
            old(p).intelligence + alignment_step(alignment as int, 15) * SCALE,
            0,
            AXIS_LIMIT as int,
        ),
        final(p).efficiency == clamp(
            old(p).efficiency + alignment_step(alignment as int, 10) * SCALE,
            0,
            AXIS_LIMIT as int,
        ),
        final(p).resilience == old(p).resilience,
        final(p).integration == old(p).integration,
{
    let a10 = alignment_step_exec(alignment, 10) * SCALE as i128;
    let a15 = alignment_step_exec(alignment, 15) * SCALE as i128;
    p.emergence = clamp_i128(p.emergence as i128 + a10);
    p.coherence = clamp_i128(p.coherence as i128 + a10);
    p.intelligence = clamp_i128(p.intelligence as i128 + a15);
    p.efficiency = clamp_i128(p.efficiency as i128 + a10);
}

fn clamp_i128(v: i128) -> (r: i64)
    ensures
        r == clamp(v as int, 0, AXIS_LIMIT as int),
{
    if v < 0 {
        0
    } else if v > AXIS_LIMIT as i128 {
        AXIS_LIMIT
    } else {
        v as i64
    }
}

} // verus!
