//! Spawning of new cells near high-energy parents.
use vstd::prelude::*;
use crate::types::{clamp, Coordinates, AXIS_LIMIT, SCALE};
use crate::dimensional::{div_toward_zero, trunc_div};

verus! {

/// Energy above which a cell may reproduce (`90.0`).
pub const REPRODUCTION_ENERGY: i64 = 90_000;

/// Chance, in thousandths, that a cell above the reproduction energy
/// spawns in one cycle.
pub const REPRODUCTION_CHANCE: u64 = 100;

/// The random draws that decide one cell's reproduction in one cycle. Each
/// draw other than `child_id` is uniform over `0..SCALE`, a point of the
/// unit interval in thousandths.
#[derive(Clone, Copy, Debug, PartialEq, Eq, Structural)]
pub struct ReproductionDraw {
    pub child_id: u128,
    pub chance: u64,
    pub dx: u64,
    pub dy: u64,
    pub dz: u64,
    pub heat: u64,
    pub emergence: u64,
    pub coherence: u64,
    pub resilience: u64,
    pub intelligence: u64,
    pub efficiency: u64,
    pub integration: u64,
}

impl ReproductionDraw {
    /// Every draw lies in `0..SCALE`.
    pub open spec fn is_valid(&self) -> bool {
        &&& self.chance < SCALE
        &&& self.dx < SCALE
        &&& self.dy < SCALE
        &&& self.dz < SCALE
        &&& self.heat < SCALE
        &&& self.emergence < SCALE
        &&& self.coherence < SCALE
        &&& self.resilience < SCALE
        &&& self.intelligence < SCALE
        &&& self.efficiency < SCALE
        &&& self.integration < SCALE
    }
}

/// A parent with energy `energy` spawns under draw `d`.
pub open spec fn spawns(energy: i64, d: ReproductionDraw) -> bool {
    energy > REPRODUCTION_ENERGY && d.chance < REPRODUCTION_CHANCE
}

/// Spatial coordinate of a child: the parent's, moved by the draw less one
/// half, saturating at the range of `i64`.
pub open spec fn jitter(v: i64, u: u64) -> i64 {
    clamp(v + u - SCALE / 2, i64::MIN as int, i64::MAX as int) as i64
}

/// Score of a child: the parent's, moved by ten times the draw less five
/// units, clamped to `[-100, 100]`.
pub open spec fn perturbed_score(v: i64, u: u64) -> i64 {
    clamp(v + 10 * u - 5 * SCALE, -AXIS_LIMIT as int, AXIS_LIMIT as int) as i64
}

/// Heat of a child: the parent's, scaled by a factor in `[0.9, 1.1)`,
/// clamped to `[0, 1]`.
pub open spec fn inherited_heat(h: i64, u: u64) -> i64 {
    clamp(trunc_div(h * (900 + u / 5), SCALE as int), 0, SCALE as int) as i64
}

/// Position of the child of a parent at `p` under draw `d`.
pub open spec fn child_position(p: Coordinates, d: ReproductionDraw) -> Coordinates {
    Coordinates {
        x: jitter(p.x, d.dx),
        y: jitter(p.y, d.dy),
        z: jitter(p.z, d.dz),
        heat: inherited_heat(p.heat, d.heat),
        emergence_score: perturbed_score(p.emergence_score, d.emergence),
        coherence_score: perturbed_score(p.coherence_score, d.coherence),
        resilience_score: perturbed_score(p.resilience_score, d.resilience),
        intelligence_score: perturbed_score(p.intelligence_score, d.intelligence),
        efficiency_score: perturbed_score(p.efficiency_score, d.efficiency),
        integration_score: perturbed_score(p.integration_score, d.integration),
    }
}

fn jitter_exec(v: i64, u: u64) -> (r: i64)
    requires
        u < SCALE,
    ensures
        r == jitter(v, u),
{
    let t: i128 = v as i128 + u as i128 - (SCALE / 2) as i128;
    if t < i64::MIN as i128 {
        i64::MIN
    } else if t > i64::MAX as i128 {
        i64::MAX
    } else {
        t as i64
    }
}

fn perturb_exec(v: i64, u: u64) -> (r: i64)
    requires
        u < SCALE,
    ensures
        r == perturbed_score(v, u),
{
    let t: i128 = v as i128 + 10 * u as i128 - (5 * SCALE) as i128;
    if t < -AXIS_LIMIT as i128 {
        -AXIS_LIMIT
    } else if t > AXIS_LIMIT as i128 {
        AXIS_LIMIT
    } else {
        t as i64
    }
}

fn heat_exec(h: i64, u: u64) -> (r: i64)
    requires
        u < SCALE,
    ensures
        r == inherited_heat(h, u),
{
    let f: i128 = 900 + (u / 5) as i128;
    assert(-0x1_0000_0000_0000_0000_0000 < h * f < 0x1_0000_0000_0000_0000_0000) by (nonlinear_arith)
        requires
            i64::MIN <= h <= i64::MAX,
            900 <= f <= 1100,
    ;
    let t = div_toward_zero(h as i128 * f, SCALE as i128);
    if t < 0 {
        0
    } else if t > SCALE as i128 {
        SCALE
    } else {
        t as i64
    }
}

/// Position of the child of a parent at `p` under draw `d`: every score in
/// `[-100, 100]` and heat in `[0, 1]`.
pub fn offspring_position(p: &Coordinates, d: &ReproductionDraw) -> (r: Coordinates)
    requires
        d.is_valid(),
    ensures
        r == child_position(*p, *d),
        r.is_valid(),
{
    Coordinates {
        x: jitter_exec(p.x, d.dx),
        y: jitter_exec(p.y, d.dy),
        z: jitter_exec(p.z, d.dz),
        heat: heat_exec(p.heat, d.heat),
        emergence_score: perturb_exec(p.emergence_score, d.emergence),
        coherence_score: perturb_exec(p.coherence_score, d.coherence),
        resilience_score: perturb_exec(p.resilience_score, d.resilience),
        intelligence_score: perturb_exec(p.intelligence_score, d.intelligence),
        efficiency_score: perturb_exec(p.efficiency_score, d.efficiency),
        integration_score: perturb_exec(p.integration_score, d.integration),
    }
}

/// Every child position lies less than one unit from its parent on each
/// spatial axis, with its scores in `[-100, 100]` and its heat in `[0, 1]`.
pub proof fn lemma_child_near_parent(p: Coordinates, d: ReproductionDraw)
    requires
        d.is_valid(),
    ensures
        -SCALE < child_position(p, d).x - p.x < SCALE,
        -SCALE < child_position(p, d).y - p.y < SCALE,
        -SCALE < child_position(p, d).z - p.z < SCALE,
        child_position(p, d).is_valid(),
{
    let c = child_position(p, d);
    assert(c.scores()[0] == c.emergence_score);
    assert(c.scores()[1] == c.coherence_score);
    assert(c.scores()[2] == c.resilience_score);
    assert(c.scores()[3] == c.intelligence_score);
    assert(c.scores()[4] == c.efficiency_score);
    assert(c.scores()[5] == c.integration_score);
}

} // verus!
