//! A cell: one autonomous agent of the colony.
use vstd::prelude::*;
use crate::types::{clamp, CellContext, Coordinates, DimensionalPosition, Plan, PlanNode, RealTimeContext, Thought, MAX_ENERGY, SCALE};
use crate::labels::{apply_batch_lines, batch_text};
use crate::outside::{lower_of, lowercase, now_seconds};
use crate::text::{decimal, decimal_text};
use crate::parse::{trim, trim_bounds};
use crate::text::{chars_of, contains_str, contains_text, replace_text, replaced};
use crate::dimensional::{align_position, aligned_position};
use crate::dimensional::{abs, audit_position, audit_step, audit_weight, adjusted_axis, div_toward_zero, trunc_div};
use crate::labels::{apply_scored_lines, scored_text};
use crate::outside::{fresh_id, random_below};
use crate::thought_io::ThoughtIO;

verus! {

/// Total content length of a thought queue above which its older half is
/// compressed.
pub const MAX_MEMORY_SIZE: usize = 50000;

/// One agent of the colony.
#[derive(Clone, Debug)]
pub struct Cell {
    pub id: u128,
    pub position: Coordinates,
    /// Oldest first.
    pub thoughts: Vec<Thought>,
    pub compressed_memories: Vec<String>,
    pub current_plan: Option<Plan>,
    pub mission_alignment_score: i64,
    /// Ids of the cells within the neighbor distance: computed when the
    /// cell is added and extended as cells are added near it; not refreshed
    /// as cells change.
    pub neighbors: Vec<u128>,
    /// In `[0, 100]`.
    pub energy: i64,
    pub dimensional_position: DimensionalPosition,
    /// In `[0, 1]`.
    pub dopamine: i64,
    pub research_topics: Vec<String>,
    pub research_depth: u32,
    pub phase: i64,
    pub stability: i64,
    pub influence_radius: i64,
    pub mutation_rate: i64,
    pub lenia_state: i64,
    pub lenia_influence: i64,
    pub context_influence: i64,
    /// Seconds since the Unix epoch of the last context update.
    pub last_context_update: Option<i64>,
    pub context_alignment_score: i64,
}

/// Total content length (in characters) of the thoughts `ts`.
pub open spec fn thoughts_size(ts: Seq<Thought>) -> int
    decreases ts.len(),
{
    if ts.len() == 0 {
        0
    } else {
        thoughts_size(ts.drop_last()) + ts.last().content@.len()
    }
}

proof fn lemma_thoughts_size_nonneg(ts: Seq<Thought>)
    ensures
        thoughts_size(ts) >= 0,
    decreases ts.len(),
{
    if ts.len() > 0 {
        lemma_thoughts_size_nonneg(ts.drop_last());
    }
}

impl Cell {
    /// The state of a newly created cell: full energy, every axis at 50,
    /// half dopamine and context alignment, no thoughts, plan or neighbors.
    pub open spec fn is_fresh(&self, id: u128, position: Coordinates) -> bool {
        &&& self.is_fresh_but_neighbors(id, position)
        &&& self.neighbors@.len() == 0
    }

    /// The state of a newly created cell, whatever its neighbor list.
    pub open spec fn is_fresh_but_neighbors(&self, id: u128, position: Coordinates) -> bool {
        &&& self.id == id
        &&& self.position == position
        &&& self.thoughts@.len() == 0
        &&& self.compressed_memories@.len() == 0
        &&& self.current_plan is None
        &&& self.energy == MAX_ENERGY
        &&& self.dimensional_position == DimensionalPosition {
            emergence: (50 * SCALE) as i64,
            coherence: (50 * SCALE) as i64,
            resilience: (50 * SCALE) as i64,
            intelligence: (50 * SCALE) as i64,
            efficiency: (50 * SCALE) as i64,
            integration: (50 * SCALE) as i64,
        }
        &&& self.dopamine == SCALE / 2
        &&& self.mission_alignment_score == SCALE
        &&& self.stability == SCALE
        &&& self.context_alignment_score == SCALE / 2
    }

    /// A new cell with identifier `id` at `position`.
    pub fn with_id(id: u128, position: Coordinates) -> (r: Cell)
        ensures
            r.is_fresh(id, position),
    {
        Cell {
            id,
            position,
            thoughts: Vec::new(),
            compressed_memories: Vec::new(),
            current_plan: None,
            mission_alignment_score: SCALE,
            neighbors: Vec::new(),
            energy: MAX_ENERGY,
            dimensional_position: DimensionalPosition {
                emergence: 50 * SCALE,
                coherence: 50 * SCALE,
                resilience: 50 * SCALE,
                intelligence: 50 * SCALE,
                efficiency: 50 * SCALE,
                integration: 50 * SCALE,
            },
            dopamine: SCALE / 2,
            research_topics: Vec::new(),
            research_depth: 1,
            phase: 0,
            stability: SCALE,
            influence_radius: 3 * SCALE,
            mutation_rate: SCALE,
            lenia_state: 0,
            lenia_influence: SCALE / 2,
            context_influence: 7 * SCALE / 10,
            last_context_update: None,
            context_alignment_score: SCALE / 2,
        }
    }

    /// A new cell at `position` with a fresh random identifier.
    pub fn new(position: Coordinates) -> (r: Cell)
        ensures
            r.is_fresh(r.id, position),
    {
        Cell::with_id(fresh_id(), position)
    }

    /// Whether the thoughts' total content length exceeds `MAX_MEMORY_SIZE`.
    pub fn needs_compression(&self) -> (r: bool)
        ensures
            r == (thoughts_size(self.thoughts@) > MAX_MEMORY_SIZE),
    {
        let mut total: usize = 0;
        let mut i: usize = 0;
        while i < self.thoughts.len()
            invariant
                i <= self.thoughts.len(),
                total == thoughts_size(self.thoughts@.take(i as int)),
                total <= MAX_MEMORY_SIZE,
            decreases self.thoughts.len() - i,
        {
            proof {
                assert(self.thoughts@.take(i + 1).drop_last() =~= self.thoughts@.take(i as int));
            }
            let n = self.thoughts[i].content.as_str().unicode_len();
            if n > MAX_MEMORY_SIZE - total {
                proof {
                    lemma_size_prefix_le(self.thoughts@, i + 1);
                }
                return true;
            }
            total = total + n;
            i = i + 1;
        }
        assert(self.thoughts@.take(i as int) =~= self.thoughts@);
        false
    }

    /// Contents of the older half of the thoughts (by count, rounded down),
    /// oldest first: what a compression summarizes.
    pub fn memories_to_compress(&self) -> (r: Vec<String>)
        ensures
            r@.len() == self.thoughts@.len() / 2,
            forall|i: int| 0 <= i < r@.len() ==> #[trigger] r@[i]@ == self.thoughts@[i].content@,
    {
        let half = self.thoughts.len() / 2;
        let mut out: Vec<String> = Vec::new();
        let mut i: usize = 0;
        while i < half
            invariant
                half == self.thoughts.len() / 2,
                i <= half,
                out@.len() == i,
                forall|j: int| 0 <= j < i ==> #[trigger] out@[j]@ == self.thoughts@[j].content@,
            decreases half - i,
        {
            out.push(self.thoughts[i].content.clone());
            i = i + 1;
        }
        out
    }

    /// Where the thoughts' total content length exceeds `MAX_MEMORY_SIZE`,
    /// removes their older half (by count, rounded down) and returns the
    /// removed contents, oldest first, for summarizing; otherwise changes
    /// nothing and returns `None`.
    pub fn check_and_compress_memories(&mut self) -> (r: Option<Vec<String>>)
        ensures
            thoughts_size(old(self).thoughts@) > MAX_MEMORY_SIZE ==> {
                let half = old(self).thoughts@.len() as int / 2;
                &&& r matches Some(m) && m@.len() == half && forall|i: int|
                    0 <= i < half ==> (#[trigger] m@[i])@ == old(self).thoughts@[i].content@
                &&& final(self).thoughts@ == old(self).thoughts@.skip(half)
            },
            thoughts_size(old(self).thoughts@) <= MAX_MEMORY_SIZE ==> r is None && final(self).thoughts
                == old(self).thoughts,
            *final(self) == (Cell { thoughts: final(self).thoughts, ..*old(self) }),
    {
        if !self.needs_compression() {
            return None;
        }
        let removed = self.memories_to_compress();
        let half = self.thoughts.len() / 2;
        let kept = self.thoughts.split_off(half);
        self.thoughts = kept;
        Some(removed)
    }

    /// Records the summary of compressed thoughts.
    pub fn record_compressed_memory(&mut self, summary: String)
        ensures
            final(self).compressed_memories@ == old(self).compressed_memories@.push(summary),
            *final(self) == (Cell { compressed_memories: final(self).compressed_memories, ..*old(self) }),
    {
        self.compressed_memories.push(summary);
    }

    /// Applies the energy and dopamine deltas of a dimensional evaluation:
    /// energy moves by `energy_delta`, dopamine by `dopamine_delta` less one
    /// half, each clamped to its range.
    pub fn apply_dimensional_evaluation(&mut self, energy_delta: i64, dopamine_delta: i64)
        ensures
            final(self).energy == clamp(old(self).energy + energy_delta, 0, MAX_ENERGY as int),
            final(self).dopamine == clamp(
                old(self).dopamine + dopamine_delta - SCALE / 2,
                0,
                SCALE as int,
            ),
            *final(self) == (Cell { energy: final(self).energy, dopamine: final(self).dopamine, ..*old(self) }),
    {
        let e = self.energy as i128 + energy_delta as i128;
        self.energy = if e < 0 {
            0
        } else if e > MAX_ENERGY as i128 {
            MAX_ENERGY
        } else {
            e as i64
        };
        let d = self.dopamine as i128 + dopamine_delta as i128 - (SCALE / 2) as i128;
        self.dopamine = if d < 0 {
            0
        } else if d > SCALE as i128 {
            SCALE
        } else {
            d as i64
        };
    }

    /// Applies the labeled dimensional score lines of a generated thought.
    pub fn update_dimensions_from_text(&mut self, text: &str)
        ensures
            final(self).dimensional_position == scored_text(old(self).dimensional_position, text@),
            *final(self) == (Cell { dimensional_position: final(self).dimensional_position, ..*old(self) }),
    {
        apply_scored_lines(&mut self.dimensional_position, text);
    }

    /// Evolution stage: one more than a tenth of the thought count.
    pub fn get_evolution_stage(&self) -> (r: u32)
        ensures
            r == clamp(self.thoughts@.len() as int / 10 + 1, 0, u32::MAX as int),
    {
        let s = self.thoughts.len() / 10;
        if s >= u32::MAX as usize {
            u32::MAX
        } else {
            (s + 1) as u32
        }
    }

    /// A confidence score drawn uniformly from `[0.8, 1)`.
    pub fn calculate_confidence_score(&self) -> (r: i64)
        ensures
            800 <= r < SCALE,
    {
        800 + random_below(200) as i64
    }
}

/// Energy below which a cell regenerates (`50.0`).
pub const REGENERATION_THRESHOLD: i64 = 50_000;

/// Energy a cell regenerates per evolution (`10.0`).
pub const REGENERATION: i64 = 10_000;

/// Estimated completion above which a plan node counts as executed.
pub const EXECUTED_COMPLETION: i64 = 800;

/// Energy after the position step of an evolution: a thirtieth of the
/// distance from the origin along the axes is added, clamped to `[0, 100]`.
pub open spec fn positional_energy(c: Cell) -> int {
    clamp(
        c.energy + (abs(c.position.x as int) + abs(c.position.y as int) + abs(c.position.z as int))
            / 30,
        0,
        MAX_ENERGY as int,
    )
}

/// Stability after the neighbor step of an evolution: nine tenths of it
/// plus a hundredth of a unit per neighbor up to ten, clamped to `[0, 1]`.
pub open spec fn neighbor_stability(c: Cell) -> int {
    let n = c.neighbors@.len() as int;
    clamp(
        trunc_div(9 * c.stability, 10) + 10 * (if n > 10 {
            10
        } else {
            n
        }),
        0,
        SCALE as int,
    )
}

/// Energy after a whole evolution: the position step, then the local
/// field's influence, clamped to `[0, 100]`, then regeneration below 50.
pub open spec fn evolved_energy(c: Cell) -> int {
    let e = clamp(
        positional_energy(c) + trunc_div(c.lenia_state * c.lenia_influence, SCALE as int),
        0,
        MAX_ENERGY as int,
    );
    if e < REGENERATION_THRESHOLD {
        e + REGENERATION
    } else {
        e
    }
}

/// Stability after a whole evolution: the neighbor step, then nine tenths
/// of it plus a tenth of the local field, clamped to `[0, 1]`.
pub open spec fn evolved_stability(c: Cell) -> int {
    clamp(
        trunc_div(9 * neighbor_stability(c), 10) + trunc_div(c.lenia_state as int, 10),
        0,
        SCALE as int,
    )
}

/// `p` is the dimensional position of `c` after an audit against its plan:
/// with a plan, every axis moved up by its share of the plan's execution
/// rate and clamped to `[0, 100]`; without one, unchanged.
pub open spec fn audited_position(c: Cell, p: DimensionalPosition) -> bool {
    match c.current_plan {
        Some(plan) => forall|k: int|
            0 <= k < 6 ==> #[trigger] p.axes()[k] == adjusted_axis(
                c.dimensional_position.axes()[k],
                audit_step(executed_nodes(plan.nodes@) as int, plan.nodes@.len() as int, audit_weight(k)),
            ),
        None => p == c.dimensional_position,
    }
}

/// Number of nodes of `ns` whose estimated completion is above 0.8.
pub open spec fn executed_nodes(ns: Seq<PlanNode>) -> nat
    decreases ns.len(),
{
    if ns.len() == 0 {
        0
    } else {
        executed_nodes(ns.drop_last()) + if ns.last().estimated_completion > EXECUTED_COMPLETION {
            1nat
        } else {
            0nat
        }
    }
}

fn count_executed(ns: &Vec<PlanNode>) -> (r: u64)
    ensures
        r == executed_nodes(ns@),
        r <= ns@.len(),
{
    let mut c: u64 = 0;
    let mut i: usize = 0;
    while i < ns.len()
        invariant
            i <= ns.len(),
            c == executed_nodes(ns@.take(i as int)),
            c <= i,
        decreases ns.len() - i,
    {
        assert(ns@.take(i + 1).drop_last() =~= ns@.take(i as int));
        if ns[i].estimated_completion > EXECUTED_COMPLETION {
            c = c + 1;
        }
        i = i + 1;
    }
    assert(ns@.take(i as int) =~= ns@);
    c
}

fn clamp_wide(v: i128, hi: i64) -> (r: i64)
    requires
        hi >= 0,
    ensures
        r == clamp(v as int, 0, hi as int),
{
    if v < 0 {
        0
    } else if v > hi as i128 {
        hi
    } else {
        v as i64
    }
}

impl Cell {
    /// One evolution step of this cell: see `evolved_energy` and
    /// `evolved_stability`. Nothing else changes.
    pub fn evolve(&mut self)
        ensures
            final(self).energy == evolved_energy(*old(self)),
            final(self).stability == evolved_stability(*old(self)),
            *final(self) == (Cell { energy: final(self).energy, stability: final(self).stability, ..*old(self) }),
    {
        let ax = if self.position.x < 0 { -(self.position.x as i128) } else { self.position.x as i128 };
        let ay = if self.position.y < 0 { -(self.position.y as i128) } else { self.position.y as i128 };
        let az = if self.position.z < 0 { -(self.position.z as i128) } else { self.position.z as i128 };
        let e1 = clamp_wide(self.energy as i128 + (ax + ay + az) / 30, MAX_ENERGY);
        let n = self.neighbors.len();
        let bonus: i128 = if n > 10 { 100 } else { 10 * n as i128 };
        let s1 = clamp_wide(div_toward_zero(9 * self.stability as i128, 10) + bonus, SCALE);
        proof {
            lemma_mul_bound2(
                self.lenia_state as int,
                self.lenia_influence as int,
                0x8000_0000_0000_0000,
                0x8000_0000_0000_0000,
            );
        }
        let li = div_toward_zero(self.lenia_state as i128 * self.lenia_influence as i128, SCALE as i128);
        let e2 = clamp_wide(e1 as i128 + li, MAX_ENERGY);
        self.energy = if e2 < REGENERATION_THRESHOLD {
            e2 + REGENERATION
        } else {
            e2
        };
        self.stability = clamp_wide(
            div_toward_zero(9 * s1 as i128, 10) + div_toward_zero(self.lenia_state as i128, 10),
            SCALE,
        );
    }

    /// Audits the dimensional position against the current plan, if any:
    /// every axis moves up by its share of the plan's execution rate (see
    /// `audit_position`). Nothing else changes.
    pub fn audit(&mut self)
        ensures
            *final(self) == (Cell { dimensional_position: final(self).dimensional_position, ..*old(self) }),
            audited_position(*old(self), final(self).dimensional_position),
    {
        match &self.current_plan {
            Some(plan) => {
                let done = count_executed(&plan.nodes);
                let total = plan.nodes.len() as u64;
                audit_position(&mut self.dimensional_position, done, total);
            },
            None => {},
        }
    }
}

/// What a cell is focused on: its plan's summary, or a default.
pub open spec fn current_focus(c: Cell) -> Seq<char> {
    match c.current_plan {
        Some(p) => p.summary@,
        None => "Exploring new opportunities"@,
    }
}

/// Contents of the thoughts of `ts` with relevance above 0.8, in order.
pub open spec fn discoveries(ts: Seq<Thought>) -> Seq<Seq<char>>
    decreases ts.len(),
{
    if ts.len() == 0 {
        Seq::empty()
    } else if ts.last().relevance_score > 800 {
        discoveries(ts.drop_last()).push(ts.last().content@)
    } else {
        discoveries(ts.drop_last())
    }
}

pub open spec fn min_int(a: int, b: int) -> int {
    if a < b {
        a
    } else {
        b
    }
}

/// Energy band of a tag: the energy in whole units rounded down to a
/// multiple of 20.
pub open spec fn energy_band(e: int) -> int {
    (e / 20_000) * 20
}

/// Number of entries of `items` whose lowercase form occurs in `focus`.
pub open spec fn focus_hits(focus: Seq<char>, items: Seq<String>) -> int
    decreases items.len(),
{
    if items.len() == 0 {
        0
    } else {
        focus_hits(focus, items.drop_last()) + if contains_text(focus, lower_of(items.last()@)) {
            1int
        } else {
            0int
        }
    }
}

/// Relevance of a context to a focus (in thousandths): 0.2 per matching
/// trend and event, 0.3 per matching development and interaction.
pub open spec fn context_relevance(focus: Seq<char>, ctx: RealTimeContext) -> int {
    200 * focus_hits(focus, ctx.market_trends@) + 300 * focus_hits(focus, ctx.technological_developments@)
        + 200 * focus_hits(focus, ctx.current_events@) + 300 * focus_hits(focus, ctx.user_interactions@)
}

pub open spec fn clamp_i64_range(v: int) -> int {
    clamp(v, i64::MIN as int, i64::MAX as int)
}

/// Context alignment after a context with relevance `rel`: four fifths of
/// the old score plus a fifth of the relevance.
pub open spec fn next_alignment(old_score: int, rel: int) -> int {
    clamp_i64_range(trunc_div(8 * old_score + 2 * rel, 10))
}

proof fn lemma_focus_hits_bound(focus: Seq<char>, items: Seq<String>)
    ensures
        0 <= focus_hits(focus, items) <= items.len(),
    decreases items.len(),
{
    if items.len() > 0 {
        lemma_focus_hits_bound(focus, items.drop_last());
    }
}

fn count_focus_hits(focus: &str, items: &Vec<String>) -> (r: u64)
    ensures
        r == focus_hits(focus@, items@),
{
    let mut c: u64 = 0;
    let mut i: usize = 0;
    while i < items.len()
        invariant
            i <= items.len(),
            c == focus_hits(focus@, items@.take(i as int)),
            c <= i,
        decreases items.len() - i,
    {
        assert(items@.take(i + 1).drop_last() =~= items@.take(i as int));
        let low = lowercase(items[i].as_str());
        if contains_str(focus, low.as_str()) {
            c = c + 1;
        }
        i = i + 1;
    }
    assert(items@.take(i as int) =~= items@);
    c
}

fn sat_i64(v: i128) -> (r: i64)
    ensures
        r == clamp_i64_range(v as int),
{
    if v < i64::MIN as i128 {
        i64::MIN
    } else if v > i64::MAX as i128 {
        i64::MAX
    } else {
        v as i64
    }
}

impl Cell {
    /// What the cell is focused on: its plan's summary, or "Exploring new
    /// opportunities".
    pub fn get_current_focus(&self) -> (r: String)
        ensures
            r@ == current_focus(*self),
    {
        match &self.current_plan {
            Some(p) => p.summary.clone(),
            None => "Exploring new opportunities".to_string(),
        }
    }

    /// Contents of the first five thoughts.
    pub fn get_active_research(&self) -> (r: Vec<String>)
        ensures
            r@.len() == min_int(5, self.thoughts@.len() as int),
            forall|i: int| 0 <= i < r@.len() ==> (#[trigger] r@[i])@ == self.thoughts@[i].content@,
    {
        let mut out: Vec<String> = Vec::new();
        let mut i: usize = 0;
        while i < self.thoughts.len() && i < 5
            invariant
                i <= self.thoughts.len(),
                i <= 5,
                out@.len() == i,
                forall|k: int| 0 <= k < i ==> (#[trigger] out@[k])@ == self.thoughts@[k].content@,
            decreases 5 - i,
        {
            out.push(self.thoughts[i].content.clone());
            i = i + 1;
        }
        out
    }

    /// Contents of the first three thoughts with relevance above 0.8.
    pub fn get_recent_discoveries(&self) -> (r: Vec<String>)
        ensures
            r@.len() == min_int(3, discoveries(self.thoughts@).len() as int),
            forall|i: int| 0 <= i < r@.len() ==> (#[trigger] r@[i])@ == discoveries(self.thoughts@)[i],
    {
        let mut out: Vec<String> = Vec::new();
        let mut i: usize = 0;
        while i < self.thoughts.len()
            invariant
                i <= self.thoughts.len(),
                out@.len() == min_int(3, discoveries(self.thoughts@.take(i as int)).len() as int),
                forall|k: int|
                    0 <= k < out@.len() ==> (#[trigger] out@[k])@ == discoveries(self.thoughts@.take(i as int))[k],
            decreases self.thoughts.len() - i,
        {
            assert(self.thoughts@.take(i + 1).drop_last() =~= self.thoughts@.take(i as int));
            if self.thoughts[i].relevance_score > 800 && out.len() < 3 {
                out.push(self.thoughts[i].content.clone());
            }
            i = i + 1;
        }
        assert(self.thoughts@.take(i as int) =~= self.thoughts@);
        out
    }

    /// The cell's record of collaborations.
    pub fn get_collaboration_history(&self) -> (r: Vec<String>)
        ensures
            r@.len() == 1,
            r@[0]@ == "Previous collaborations"@,
    {
        vec!["Previous collaborations".to_string()]
    }

    /// Energy (as energy efficiency) and mission alignment.
    pub fn get_performance_metrics(&self) -> (r: Vec<(String, i64)>)
        ensures
            r@.len() == 2,
            r@[0].0@ == "energy_efficiency"@ && r@[0].1 == self.energy,
            r@[1].0@ == "mission_alignment"@ && r@[1].1 == self.mission_alignment_score,
    {
        vec![
            ("energy_efficiency".to_string(), self.energy),
            ("mission_alignment".to_string(), self.mission_alignment_score),
        ]
    }

    /// What the cell tells the model about itself.
    pub fn cell_context(&self) -> (r: CellContext)
        ensures
            r.current_focus@ == current_focus(*self),
            r.evolution_stage == clamp(self.thoughts@.len() as int / 10 + 1, 0, u32::MAX as int),
            r.energy_level == self.energy,
            r.dimensional_position == self.dimensional_position,
            r.dopamine == self.dopamine,
            r.active_research_topics@.len() == min_int(5, self.thoughts@.len() as int),
    {
        CellContext {
            current_focus: self.get_current_focus(),
            active_research_topics: self.get_active_research(),
            recent_discoveries: self.get_recent_discoveries(),
            collaboration_history: self.get_collaboration_history(),
            performance_metrics: self.get_performance_metrics(),
            evolution_stage: self.get_evolution_stage(),
            energy_level: self.energy,
            dimensional_position: self.dimensional_position,
            dopamine: self.dopamine,
        }
    }

    /// Tags of a thought made in `context`: its evolution stage, its energy
    /// band, and "active".
    pub fn generate_context_tags(&self, context: &CellContext) -> (r: Vec<String>)
        ensures
            r@.len() == 3,
            r@[0]@ == "stage_"@ + decimal(context.evolution_stage as int),
            r@[1]@ == "energy_"@ + decimal(energy_band(context.energy_level as int)),
            r@[2]@ == "active"@,
    {
        let e = context.energy_level as i128;
        let band: i128 = if e >= 0 {
            (e / 20_000) * 20
        } else {
            -((-e + 19_999) / 20_000) * 20
        };
        proof {
            if e < 0 {
                assert((-e + 19_999) / 20_000 == -(e / 20_000)) by (nonlinear_arith)
                    requires
                        e < 0,
                ;
            }
        }
        let mut stage = "stage_".to_string();
        stage.append(decimal_text(context.evolution_stage as i64).as_str());
        let mut energy = "energy_".to_string();
        energy.append(decimal_text(band as i64).as_str());
        vec![stage, energy, "active".to_string()]
    }
}

impl Cell {
    /// Records a thought the model generated for this cell: its labeled
    /// score lines set the dimensional position; it is stored (oldest
    /// first) with "quantum" replaced by "advanced", with the descriptions
    /// of its provenance (see `ThoughtIO::for_thought`: the text itself and
    /// "Update system based on thought") as its real-time factors; and a
    /// plan with a blank summary takes "Plan based on thought: " and the
    /// text as its summary.
    pub fn record_generated_thought(
        &mut self,
        id: u128,
        content: &str,
        relevance: i64,
        factors: Vec<String>,
        context: &CellContext,
        timestamp: i64,
    )
        ensures
            final(self).dimensional_position == scored_text(old(self).dimensional_position, content@),
            final(self).thoughts@.len() == old(self).thoughts@.len() + 1,
            final(self).thoughts@.drop_last() == old(self).thoughts@,
            ({
                let t = final(self).thoughts@.last();
                &&& t.id == id
                &&& t.content@ == replaced(content@, "quantum"@, "advanced"@)
                &&& t.relevance_score == relevance
                &&& t.timestamp == timestamp
                &&& 800 <= t.confidence_score < SCALE
                &&& t.real_time_factors@.len() == 2
                &&& t.real_time_factors@[0]@ == content@
                &&& t.real_time_factors@[1]@ == "Update system based on thought"@
            }),
            match old(self).current_plan {
                Some(p) => final(self).current_plan matches Some(q) && q.id == p.id && (if trim(
                    p.summary@,
                ).len() == 0 {
                    q.summary@ == "Plan based on thought: "@ + content@
                } else {
                    q.summary@ == p.summary@
                }),
                None => final(self).current_plan is None,
            },
            final(self).id == old(self).id,
            final(self).energy == old(self).energy,
            final(self).dopamine == old(self).dopamine,
            final(self).position == old(self).position,
            final(self).neighbors == old(self).neighbors,
    {
        self.update_dimensions_from_text(content);
        proof {
            reveal_strlit("quantum");
        }
        let thought = Thought {
            id,
            content: replace_text(content, "quantum", "advanced"),
            timestamp,
            relevance_score: relevance,
            context_tags: self.generate_context_tags(context),
            real_time_factors: ThoughtIO::for_thought(content, relevance, factors, fresh_id(), fresh_id()).descriptions(),
            confidence_score: self.calculate_confidence_score(),
            ascii_visualization: None,
            referenced_thoughts: Vec::new(),
        };
        match &mut self.current_plan {
            Some(plan) => {
                let cs = chars_of(plan.summary.as_str());
                let (a, b) = trim_bounds(&cs, 0, cs.len());
                assert(cs@.subrange(0, cs@.len() as int) =~= cs@);
                if a == b {
                    let mut text = "Plan based on thought: ".to_string();
                    text.append(content);
                    plan.summary = text;
                }
            },
            None => {},
        }
        let ghost before = self.thoughts@;
        self.thoughts.push(thought);
        assert(self.thoughts@.drop_last() =~= before);
    }

    /// Merges a thought from a batch reply into this cell: it is stored
    /// with the given text, relevance and factors, tagged from the cell's
    /// context, and its labeled lines set the dimensional position and
    /// dopamine (see `batch_text`).
    pub fn merge_batch_thought(
        &mut self,
        id: u128,
        content: &str,
        relevance: i64,
        factors: Vec<String>,
        timestamp: i64,
    )
        ensures
            (final(self).dimensional_position, final(self).dopamine) == batch_text(
                (old(self).dimensional_position, old(self).dopamine),
                content@,
            ),
            final(self).thoughts@.len() == old(self).thoughts@.len() + 1,
            final(self).thoughts@.drop_last() == old(self).thoughts@,
            ({
                let t = final(self).thoughts@.last();
                &&& t.id == id
                &&& t.content@ == content@
                &&& t.relevance_score == relevance
                &&& t.timestamp == timestamp
                &&& t.real_time_factors == factors
                &&& 800 <= t.confidence_score < SCALE
            }),
            final(self).id == old(self).id,
            final(self).energy == old(self).energy,
            final(self).position == old(self).position,
            final(self).neighbors == old(self).neighbors,
            final(self).current_plan == old(self).current_plan,
    {
        let context = self.cell_context();
        let thought = Thought {
            id,
            content: content.to_string(),
            timestamp,
            relevance_score: relevance,
            context_tags: self.generate_context_tags(&context),
            real_time_factors: factors,
            confidence_score: self.calculate_confidence_score(),
            ascii_visualization: None,
            referenced_thoughts: Vec::new(),
        };
        apply_batch_lines(&mut self.dimensional_position, &mut self.dopamine, content);
        let ghost before = self.thoughts@;
        self.thoughts.push(thought);
        assert(self.thoughts@.drop_last() =~= before);
    }

    /// Updates focus-related state from a freshly gathered context: the
    /// context alignment moves toward the context's relevance to the
    /// current focus (both lowercased); energy moves by ten times the
    /// alignment's distance from one half, times the context influence;
    /// mission alignment and dopamine drift toward the alignment; and the
    /// dimensional position follows it (see `align_position`).
    pub fn update_focus_based_on_context(&mut self, context: &RealTimeContext)
        ensures
            ({
                let focus = lower_of(current_focus(*old(self)));
                let a = next_alignment(
                    old(self).context_alignment_score as int,
                    context_relevance(focus, *context),
                );
                &&& final(self).context_alignment_score == a
                &&& final(self).energy == clamp(
                    old(self).energy + trunc_div((a - 500) * old(self).context_influence, 100),
                    0,
                    MAX_ENERGY as int,
                )
                &&& final(self).mission_alignment_score == clamp_i64_range(
                    trunc_div(95 * old(self).mission_alignment_score + 5 * a, 100),
                )
                &&& final(self).dopamine == clamp_i64_range(trunc_div(9 * old(self).dopamine + a, 10))
                &&& final(self).dimensional_position == aligned_position(old(self).dimensional_position, a)
                &&& final(self).last_context_update is Some
            }),
            final(self).id == old(self).id,
            final(self).thoughts == old(self).thoughts,
            final(self).current_plan == old(self).current_plan,
            final(self).position == old(self).position,
            final(self).neighbors == old(self).neighbors,
    {
        self.last_context_update = Some(now_seconds());
        let focus = lowercase(self.get_current_focus().as_str());
        let t = count_focus_hits(focus.as_str(), &context.market_trends);
        let d = count_focus_hits(focus.as_str(), &context.technological_developments);
        let e = count_focus_hits(focus.as_str(), &context.current_events);
        let u = count_focus_hits(focus.as_str(), &context.user_interactions);
        let rel: i128 = 200 * t as i128 + 300 * d as i128 + 200 * e as i128 + 300 * u as i128;
        let a = sat_i64(crate::dimensional::div_toward_zero(8 * self.context_alignment_score as i128 + 2 * rel, 10));
        self.context_alignment_score = a;
        proof {
            lemma_mul_bound2(a as int - 500, self.context_influence as int, 0x8000_0000_0000_0200, 0x8000_0000_0000_0000);
        }
        let adj = crate::dimensional::div_toward_zero((a as i128 - 500) * self.context_influence as i128, 100);
        self.energy = clamp_wide(self.energy as i128 + adj, MAX_ENERGY);
        self.mission_alignment_score = sat_i64(
            crate::dimensional::div_toward_zero(95 * self.mission_alignment_score as i128 + 5 * a as i128, 100),
        );
        align_position(&mut self.dimensional_position, a);
        self.dopamine = sat_i64(crate::dimensional::div_toward_zero(9 * self.dopamine as i128 + a as i128, 10));
    }
}

/// Bounds a product by the bounds of its factors.
pub proof fn lemma_mul_bound2(a: int, b: int, ma: int, mb: int)
    requires
        -ma <= a <= ma,
        -mb <= b <= mb,
        ma >= 0,
        mb >= 0,
    ensures
        -(ma * mb) <= a * b <= ma * mb,
{
    assert(-(ma * mb) <= a * b <= ma * mb) by (nonlinear_arith)
        requires
            -ma <= a <= ma,
            -mb <= b <= mb,
            ma >= 0,
            mb >= 0,
    ;
}

/// Compressing a queue whose total content length exceeds
/// `MAX_MEMORY_SIZE` (`check_and_compress_memories`, then
/// `record_compressed_memory` with the summary) leaves exactly the newer
/// half of the thoughts, in order, and records exactly one compressed
/// memory.
pub proof fn lemma_compression_keeps_newer_half(before: Cell, after: Cell, summary: String)
    requires
        thoughts_size(before.thoughts@) > MAX_MEMORY_SIZE,
        after.thoughts@ == before.thoughts@.skip(before.thoughts@.len() as int / 2),
        after.compressed_memories@ == before.compressed_memories@.push(summary),
    ensures
        before.thoughts@.len() >= 1,
        after.thoughts@.len() == before.thoughts@.len() - before.thoughts@.len() as int / 2,
        forall|i: int|
            0 <= i < after.thoughts@.len() ==> #[trigger] after.thoughts@[i] == before.thoughts@[i
                + before.thoughts@.len() as int / 2],
        after.compressed_memories@.len() == before.compressed_memories@.len() + 1,
        after.compressed_memories@.last() == summary,
{
    if before.thoughts@.len() == 0 {
        assert(thoughts_size(before.thoughts@) == 0);
    }
}

proof fn lemma_size_prefix_le(ts: Seq<Thought>, n: int)
    requires
        0 <= n <= ts.len(),
    ensures
        thoughts_size(ts.take(n)) <= thoughts_size(ts),
    decreases ts.len(),
{
    if n < ts.len() {
        assert(ts.drop_last().take(n) =~= ts.take(n));
        lemma_size_prefix_le(ts.drop_last(), n);
    } else {
        assert(ts.take(n) =~= ts);
    }
}

} // verus!
