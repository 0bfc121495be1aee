//! Local interaction rules between a cell and its neighborhood: which
//! effects arise, how they change the cell, and when it thinks.
use vstd::prelude::*;
use crate::cell::Cell;
use crate::types::SCALE;
use crate::dimensional::trunc_div;

verus! {

/// Smoothed state of a cell under the interaction rules (fixed point).
#[derive(Clone, Copy, Debug, PartialEq, Eq, Structural)]
pub struct EnhancedCellState {
    pub energy: i64,
    pub activity_level: i64,
    pub stability: i64,
    pub phase: i64,
    pub phase_velocity: i64,
    pub coupling_strength: i64,
    pub adaptation_rate: i64,
}

impl EnhancedCellState {
    /// Full energy, no activity, full stability, phase zero, coupling one
    /// half, adaptation one tenth.
    pub fn new() -> (r: EnhancedCellState)
        ensures
            r.energy == 100 * SCALE && r.activity_level == 0 && r.stability == SCALE,
            r.phase == 0 && r.phase_velocity == 0,
            r.coupling_strength == SCALE / 2 && r.adaptation_rate == SCALE / 10,
    {
        EnhancedCellState {
            energy: 100 * SCALE,
            activity_level: 0,
            stability: SCALE,
            phase: 0,
            phase_velocity: 0,
            coupling_strength: SCALE / 2,
            adaptation_rate: SCALE / 10,
        }
    }
}

/// An effect of the neighborhood on a cell.
#[derive(Clone, Copy, Debug, PartialEq, Eq, Structural)]
pub enum InteractionEffect {
    /// Energy gained, in thousandths.
    EnergyBoost(i64),
    /// Stability and dopamine bonus, in thousandths.
    SynchronizationBonus(i64),
    /// Reproduction conditions hold; energy pays for it.
    SpawnConditionsMet,
}

/// Energy gradient (in thousandths) from a cell's energy to its
/// neighbors' mean energy, over a span of 100.
pub open spec fn energy_gradient(mean_neighbor_energy: int, energy: int) -> int {
    crate::dimensional::trunc_div(mean_neighbor_energy - energy, 100)
}

/// The effects for a cell in state `s` whose neighbors have mean energy
/// `mean_neighbor_energy` and mean phase alignment (cosine of the phase
/// difference, in thousandths) `phase_alignment`, both absent without
/// neighbors: an energy boost of five times the gradient where the gradient
/// exceeds one half and stability exceeds 0.7; a synchronization bonus of
/// twice the alignment where it exceeds 0.8; spawn conditions where
/// activity exceeds 0.7 and energy 50.
pub fn calculate_interaction_effects(
    s: &EnhancedCellState,
    mean_neighbor_energy: Option<i64>,
    phase_alignment: Option<i64>,
) -> (r: Vec<InteractionEffect>)
    requires
        phase_alignment matches Some(a) ==> -SCALE <= a <= SCALE,
    ensures
        ({
            let boost = match mean_neighbor_energy {
                Some(m) => energy_gradient(m as int, s.energy as int) > 500 && s.stability > 700,
                None => false,
            };
            let sync = match phase_alignment {
                Some(a) => a > 800,
                None => false,
            };
            let spawn = s.activity_level > 700 && s.energy > 50 * SCALE;
            let e = if boost {
                seq![InteractionEffect::EnergyBoost((5 * energy_gradient(mean_neighbor_energy->0 as int, s.energy as int)) as i64)]
            } else {
                Seq::empty()
            };
            let f = if sync {
                e.push(InteractionEffect::SynchronizationBonus((2 * phase_alignment->0) as i64))
            } else {
                e
            };
            r@ == if spawn {
                f.push(InteractionEffect::SpawnConditionsMet)
            } else {
                f
            }
        }),
{
    let mut effects: Vec<InteractionEffect> = Vec::new();
    match mean_neighbor_energy {
        Some(m) => {
            let g = crate::dimensional::div_toward_zero(m as i128 - s.energy as i128, 100);
            if g > 500 && s.stability > 700 {
                effects.push(InteractionEffect::EnergyBoost((5 * g) as i64));
            }
        },
        None => {},
    }
    match phase_alignment {
        Some(a) => {
            if a > 800 {
                effects.push(InteractionEffect::SynchronizationBonus(2 * a));
            }
        },
        None => {},
    }
    if s.activity_level > 700 && s.energy > 50 * SCALE {
        effects.push(InteractionEffect::SpawnConditionsMet);
    }
    effects
}

pub open spec fn sat(v: int) -> i64 {
    crate::types::clamp(v, i64::MIN as int, i64::MAX as int) as i64
}

/// Effect of `e` on (cell energy, cell dopamine, smoothed energy, smoothed
/// stability): an energy boost adds to both energies; a synchronization
/// bonus adds a twentieth of it to dopamine and a tenth to stability; spawn
/// conditions cost both energies three tenths. Quotients round toward zero
/// and sums saturate at the range of `i64`.
pub open spec fn after_effect(v: (i64, i64, i64, i64), e: InteractionEffect) -> (i64, i64, i64, i64) {
    match e {
        InteractionEffect::EnergyBoost(a) => (sat(v.0 + a), v.1, sat(v.2 + a), v.3),
        InteractionEffect::SynchronizationBonus(b) => (
            v.0,
            sat(v.1 + trunc_div(b as int, 20)),
            v.2,
            sat(v.3 + trunc_div(b as int, 10)),
        ),
        InteractionEffect::SpawnConditionsMet => (
            trunc_div(7 * v.0, 10) as i64,
            v.1,
            trunc_div(7 * v.2, 10) as i64,
            v.3,
        ),
    }
}

/// Effect of the first `n` effects of `es`, in order.
pub open spec fn after_effects(v: (i64, i64, i64, i64), es: Seq<InteractionEffect>, n: int) -> (i64, i64, i64, i64)
    decreases n,
{
    if n <= 0 {
        v
    } else {
        after_effect(after_effects(v, es, n - 1), es[n - 1])
    }
}

/// Applies `effects` in order to a cell and its smoothed state (see
/// `after_effect`); nothing else changes.
pub fn process_interaction_effects(
    cell: &mut Cell,
    state: &mut EnhancedCellState,
    effects: &Vec<InteractionEffect>,
)
    ensures
        (final(cell).energy, final(cell).dopamine, final(state).energy, final(state).stability)
            == after_effects(
            (old(cell).energy, old(cell).dopamine, old(state).energy, old(state).stability),
            effects@,
            effects@.len() as int,
        ),
        *final(cell) == (Cell { energy: final(cell).energy, dopamine: final(cell).dopamine, ..*old(cell) }),
        *final(state) == (EnhancedCellState {
            energy: final(state).energy,
            stability: final(state).stability,
            ..*old(state)
        }),
{
    let mut i: usize = 0;
    while i < effects.len()
        invariant
            i <= effects.len(),
            (cell.energy, cell.dopamine, state.energy, state.stability) == after_effects(
                (old(cell).energy, old(cell).dopamine, old(state).energy, old(state).stability),
                effects@,
                i as int,
            ),
            *cell == (Cell { energy: cell.energy, dopamine: cell.dopamine, ..*old(cell) }),
            *state == (EnhancedCellState { energy: state.energy, stability: state.stability, ..*old(state) }),
        decreases effects.len() - i,
    {
        match effects[i] {
            InteractionEffect::EnergyBoost(amount) => {
                state.energy = crate::types::saturating_add_i64(state.energy, amount);
                cell.energy = crate::types::saturating_add_i64(cell.energy, amount);
            },
            InteractionEffect::SynchronizationBonus(bonus) => {
                let tenth = crate::dimensional::div_toward_zero(bonus as i128, 10) as i64;
                let twentieth = crate::dimensional::div_toward_zero(bonus as i128, 20) as i64;
                state.stability = crate::types::saturating_add_i64(state.stability, tenth);
                cell.dopamine = crate::types::saturating_add_i64(cell.dopamine, twentieth);
            },
            InteractionEffect::SpawnConditionsMet => {
                state.energy = crate::dimensional::div_toward_zero(7 * state.energy as i128, 10) as i64;
                cell.energy = crate::dimensional::div_toward_zero(7 * cell.energy as i128, 10) as i64;
            },
        }
        i = i + 1;
    }
}

/// Whether a cell thinks this tick: stability above one half, activity
/// above 0.3, and a uniform draw in `0..SCALE` under the mutation rate.
pub fn should_generate_thought(s: &EnhancedCellState, mutation_rate: i64, draw: u64) -> (r: bool)
    ensures
        r == (s.stability > SCALE / 2 && s.activity_level > 300 && (draw as int) < mutation_rate),
{
    s.stability > SCALE / 2 && s.activity_level > 300 && (draw as i128) < mutation_rate as i128
}

} // verus!
