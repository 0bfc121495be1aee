//! Snapshots of a colony: what is saved, and how a colony is restored from
//! it. Reading and writing the snapshot file happens outside the library.
use vstd::prelude::*;
use crate::cell::Cell;
use crate::colony::{has_id, unique_ids, Colony};
use crate::planning::{copy_plan, copy_thought, same_plan, same_thought};
use crate::types::{Coordinates, DimensionalPosition, Plan, Thought, SCALE};

verus! {

/// Largest number of entries of a saved energy grid.
pub const MAX_GRID_CELLS: usize = 16_777_216;

/// Saved state of one cell.
#[derive(Debug)]
pub struct CellState {
    pub id: u128,
    pub energy: i64,
    pub thoughts: Vec<Thought>,
    pub current_plan: Option<Plan>,
    pub dimensional_position: DimensionalPosition,
    pub dopamine: i64,
    pub stability: i64,
    pub phase: i64,
    pub context_alignment_score: i64,
    pub mission_alignment_score: i64,
    pub lenia_state: i64,
    pub lenia_influence: i64,
    pub x: i64,
    pub y: i64,
    pub z: i64,
}

/// Energy of the cells laid on a cubic grid of half-unit steps.
#[derive(Debug)]
pub struct EnergyGridState {
    /// Side of the cube.
    pub size: usize,
    /// Energies, indexed `z * size * size + y * size + x`; zero where no
    /// cell lies.
    pub grid: Vec<i64>,
    /// Grid coordinates of each cell.
    pub cell_positions: Vec<(u128, u64, u64, u64)>,
}

/// Saved state of a colony.
#[derive(Debug)]
pub struct ColonyState {
    /// Seconds since the Unix epoch.
    pub timestamp: i64,
    pub cells: Vec<CellState>,
    pub total_cycles: u32,
    pub mission: String,
    pub energy_grid: EnergyGridState,
}

/// Grid coordinate of a spatial coordinate: its number of half units,
/// rounded down, and zero for negative coordinates.
pub open spec fn grid_coord(v: i64) -> int {
    if v <= 0 {
        0
    } else {
        (2 * v) / SCALE as int
    }
}

pub open spec fn max3(a: int, b: int, c: int) -> int {
    if a >= b && a >= c {
        a
    } else if b >= c {
        b
    } else {
        c
    }
}

/// Largest grid coordinate of the first `n` cells (zero for none).
pub open spec fn max_grid_coord(cs: Seq<Cell>, n: int) -> int
    decreases n,
{
    if n <= 0 {
        0
    } else {
        let c = cs[n - 1].position;
        let m = max_grid_coord(cs, n - 1);
        let here = max3(grid_coord(c.x), grid_coord(c.y), grid_coord(c.z));
        if here > m {
            here
        } else {
            m
        }
    }
}

/// Side of the saved grid: two more than the largest grid coordinate.
pub open spec fn grid_size(cs: Seq<Cell>) -> int {
    max_grid_coord(cs, cs.len() as int) + 2
}

/// Grid index of a position in a grid of side `size`.
pub open spec fn grid_index(p: Coordinates, size: int) -> int {
    grid_coord(p.z) * size * size + grid_coord(p.y) * size + grid_coord(p.x)
}

/// The grid after laying the first `n` cells, in order, on a zero grid.
pub open spec fn grid_after(cs: Seq<Cell>, size: int, n: int) -> Seq<i64>
    decreases n,
{
    if n <= 0 {
        Seq::new((size * size * size) as nat, |i: int| 0i64)
    } else {
        grid_after(cs, size, n - 1).update(grid_index(cs[n - 1].position, size), cs[n - 1].energy)
    }
}

/// `s` saves cell `c`.
pub open spec fn saves_cell(s: CellState, c: Cell) -> bool {
    &&& s.id == c.id
    &&& s.energy == c.energy
    &&& s.dimensional_position == c.dimensional_position
    &&& s.dopamine == c.dopamine
    &&& s.stability == c.stability
    &&& s.phase == c.phase
    &&& s.context_alignment_score == c.context_alignment_score
    &&& s.mission_alignment_score == c.mission_alignment_score
    &&& s.lenia_state == c.lenia_state
    &&& s.lenia_influence == c.lenia_influence
    &&& s.x == c.position.x && s.y == c.position.y && s.z == c.position.z
    &&& s.thoughts@.len() == c.thoughts@.len()
    &&& forall|i: int| 0 <= i < c.thoughts@.len() ==> same_thought(#[trigger] s.thoughts@[i], c.thoughts@[i])
    &&& match c.current_plan {
        Some(p) => s.current_plan matches Some(q) && same_plan(q, p),
        None => s.current_plan is None,
    }
}

/// `s` is a snapshot of the cells `cs` and mission `mission`.
pub open spec fn is_snapshot_of(s: ColonyState, cs: Seq<Cell>, mission: Seq<char>) -> bool {
    &&& s.mission@ == mission
    &&& s.cells@.len() == cs.len()
    &&& forall|k: int| 0 <= k < cs.len() ==> saves_cell(#[trigger] s.cells@[k], cs[k])
    &&& if grid_fits(cs) {
        is_energy_grid_of(s.energy_grid, cs)
    } else {
        s.energy_grid.size == 0 && s.energy_grid.grid@.len() == 0 && s.energy_grid.cell_positions@.len()
            == 0
    }
}

/// The energy grid of `cs` has at most `MAX_GRID_CELLS` entries.
pub open spec fn grid_fits(cs: Seq<Cell>) -> bool {
    grid_size(cs) * grid_size(cs) * grid_size(cs) <= MAX_GRID_CELLS
}

/// `g` is the energy grid of the cells `cs`.
pub open spec fn is_energy_grid_of(g: EnergyGridState, cs: Seq<Cell>) -> bool {
    &&& g.size == grid_size(cs)
    &&& g.grid@ == grid_after(cs, grid_size(cs), cs.len() as int)
    &&& g.cell_positions@.len() == cs.len()
    &&& forall|k: int|
        0 <= k < cs.len() ==> #[trigger] g.cell_positions@[k] == (
            cs[k].id,
            grid_coord(cs[k].position.x) as u64,
            grid_coord(cs[k].position.y) as u64,
            grid_coord(cs[k].position.z) as u64,
        )
}

/// Cell `c` was restored from `s`: identifier, position, energy, thoughts,
/// plan, dimensional position, dopamine, stability, phase and both
/// alignment scores come from it.
pub open spec fn restores_cell(c: Cell, s: CellState) -> bool {
    &&& c.id == s.id
    &&& c.position.x == s.x && c.position.y == s.y && c.position.z == s.z
    &&& c.energy == s.energy
    &&& c.dimensional_position == s.dimensional_position
    &&& c.dopamine == s.dopamine
    &&& c.stability == s.stability
    &&& c.phase == s.phase
    &&& c.context_alignment_score == s.context_alignment_score
    &&& c.mission_alignment_score == s.mission_alignment_score
    &&& c.thoughts@.len() == s.thoughts@.len()
    &&& forall|i: int| 0 <= i < s.thoughts@.len() ==> same_thought(#[trigger] c.thoughts@[i], s.thoughts@[i])
    &&& match s.current_plan {
        Some(p) => c.current_plan matches Some(q) && same_plan(q, p),
        None => c.current_plan is None,
    }
}

/// The saved cells have distinct identifiers.
pub open spec fn unique_saved_ids(s: Seq<CellState>) -> bool {
    forall|i: int, j: int| 0 <= i < j < s.len() ==> #[trigger] s[i].id != #[trigger] s[j].id
}

fn copy_thoughts(ts: &Vec<Thought>) -> (r: Vec<Thought>)
    ensures
        r@.len() == ts@.len(),
        forall|i: int| 0 <= i < ts@.len() ==> same_thought(#[trigger] r@[i], ts@[i]),
{
    let mut out: Vec<Thought> = Vec::new();
    let mut i: usize = 0;
    while i < ts.len()
        invariant
            i <= ts.len(),
            out@.len() == i,
            forall|k: int| 0 <= k < i ==> same_thought(#[trigger] out@[k], ts@[k]),
        decreases ts.len() - i,
    {
        out.push(copy_thought(&ts[i]));
        i = i + 1;
    }
    out
}

fn copy_plan_opt(p: &Option<Plan>) -> (r: Option<Plan>)
    ensures
        match *p {
            Some(a) => r matches Some(b) && same_plan(b, a),
            None => r is None,
        },
{
    match p {
        Some(a) => Some(copy_plan(a)),
        None => None,
    }
}

fn grid_coord_exec(v: i64) -> (r: u64)
    ensures
        r == grid_coord(v),
{
    if v <= 0 {
        0
    } else {
        assert(2 * v / 1000 < 0x1_0000_0000_0000_0000) by (nonlinear_arith)
            requires
                0 < v <= i64::MAX,
        ;
        ((2 * v as u128) / SCALE as u128) as u64
    }
}

impl Colony {
    /// A snapshot of the colony at `timestamp`: every cell, the mission,
    /// and the energy grid where it fits in `MAX_GRID_CELLS` entries (an
    /// empty grid otherwise).
    pub fn save_state(&self, timestamp: i64) -> (r: ColonyState)
        ensures
            is_snapshot_of(r, self.cells@, self.mission@),
            r.timestamp == timestamp,
            r.total_cycles == 0,
    {
        let cells = self.saved_cells();
        let energy_grid = match self.energy_grid() {
            Some(g) => g,
            None => EnergyGridState { size: 0, grid: Vec::new(), cell_positions: Vec::new() },
        };
        ColonyState { timestamp, cells, total_cycles: 0, mission: self.mission.clone(), energy_grid }
    }

    /// The saved state of every cell, in order.
    pub fn saved_cells(&self) -> (r: Vec<CellState>)
        ensures
            r@.len() == self.cells@.len(),
            forall|j: int| 0 <= j < r@.len() ==> saves_cell(#[trigger] r@[j], self.cells@[j]),
    {
        let n = self.cells.len();
        let mut cells: Vec<CellState> = Vec::new();
        let mut k: usize = 0;
        while k < n
            invariant
                n == self.cells@.len(),
                k <= n,
                cells@.len() == k,
                forall|j: int| 0 <= j < k ==> saves_cell(#[trigger] cells@[j], self.cells@[j]),
            decreases n - k,
        {
            let c = &self.cells[k];
            cells.push(
                CellState {
                    id: c.id,
                    energy: c.energy,
                    thoughts: copy_thoughts(&c.thoughts),
                    current_plan: copy_plan_opt(&c.current_plan),
                    dimensional_position: c.dimensional_position,
                    dopamine: c.dopamine,
                    stability: c.stability,
                    phase: c.phase,
                    context_alignment_score: c.context_alignment_score,
                    mission_alignment_score: c.mission_alignment_score,
                    lenia_state: c.lenia_state,
                    lenia_influence: c.lenia_influence,
                    x: c.position.x,
                    y: c.position.y,
                    z: c.position.z,
                },
            );
            k = k + 1;
        }
        cells
    }

    /// The cells' energies laid on a grid of half-unit steps, or `None`
    /// where the grid would exceed `MAX_GRID_CELLS` entries.
    pub fn energy_grid(&self) -> (r: Option<EnergyGridState>)
        ensures
            r is None <==> !grid_fits(self.cells@),
            r matches Some(g) ==> is_energy_grid_of(g, self.cells@),
    {
        let n = self.cells.len();
        let mut m: u64 = 0;
        let mut i: usize = 0;
        while i < n
            invariant
                n == self.cells@.len(),
                i <= n,
                m == max_grid_coord(self.cells@, i as int),
            decreases n - i,
        {
            let p = self.cells[i].position;
            let gx = grid_coord_exec(p.x);
            let gy = grid_coord_exec(p.y);
            let gz = grid_coord_exec(p.z);
            let here = if gx >= gy && gx >= gz {
                gx
            } else if gy >= gz {
                gy
            } else {
                gz
            };
            if here > m {
                m = here;
            }
            i = i + 1;
        }
        if m > 300 {
            assert(grid_size(self.cells@) * grid_size(self.cells@) * grid_size(self.cells@)
                > MAX_GRID_CELLS) by (nonlinear_arith)
                requires
                    grid_size(self.cells@) > 302,
            ;
            return None;
        }
        let size: usize = (m + 2) as usize;
        assert(size * size <= 302 * 302 && size * size * size <= 302 * 302 * 302) by (nonlinear_arith)
            requires
                size <= 302,
        ;
        let total = size * size * size;
        if total > MAX_GRID_CELLS {
            return None;
        }
        let mut grid: Vec<i64> = Vec::new();
        let mut g: usize = 0;
        while g < total
            invariant
                g <= total,
                grid@ == Seq::new(g as nat, |i: int| 0i64),
            decreases total - g,
        {
            grid.push(0);
            assert(grid@ =~= Seq::new((g + 1) as nat, |i: int| 0i64));
            g = g + 1;
        }
        let mut positions: Vec<(u128, u64, u64, u64)> = Vec::new();
        let mut k: usize = 0;
        while k < n
            invariant
                n == self.cells@.len(),
                k <= n,
                size == grid_size(self.cells@),
                size <= 302,
                size * size <= 302 * 302,
                total == size * size * size,
                total <= MAX_GRID_CELLS,
                grid@.len() == total,
                m == max_grid_coord(self.cells@, n as int),
                grid@ == grid_after(self.cells@, size as int, k as int),
                positions@.len() == k,
                forall|j: int|
                    0 <= j < k ==> #[trigger] positions@[j] == (
                        self.cells@[j].id,
                        grid_coord(self.cells@[j].position.x) as u64,
                        grid_coord(self.cells@[j].position.y) as u64,
                        grid_coord(self.cells@[j].position.z) as u64,
                    ),
            decreases n - k,
        {
            let c = &self.cells[k];
            let gx = grid_coord_exec(c.position.x);
            let gy = grid_coord_exec(c.position.y);
            let gz = grid_coord_exec(c.position.z);
            proof {
                lemma_max_grid_coord(self.cells@, n as int, k as int);
                assert(gz * size * size + gy * size + gx < size * size * size) by (nonlinear_arith)
                    requires
                        gx < size,
                        gy < size,
                        gz < size,
                ;
                assert(gz * size * size <= size * size * size) by (nonlinear_arith)
                    requires
                        gz < size,
                ;
                assert(gy * size <= size * size) by (nonlinear_arith)
                    requires
                        gy < size,
                ;
                assert(gz * size <= size * size) by (nonlinear_arith)
                    requires
                        gz < size,
                ;
                assert(size * size * size <= 302 * 302 * 302) by (nonlinear_arith)
                    requires
                        size <= 302,
                ;
            }
            let ux = gx as usize;
            let uy = gy as usize;
            let uz = gz as usize;
            let za = uz * size;
            assert(za * size <= size * size * size) by (nonlinear_arith)
                requires
                    za <= size * size,
                    za == uz * size,
                    uz < size,
            ;
            let zb = za * size;
            let ya = uy * size;
            let idx = zb + ya + ux;
            grid.set(idx, c.energy);
            positions.push((c.id, gx, gy, gz));
            k = k + 1;
        }
        Some(EnergyGridState { size, grid, cell_positions: positions })
    }
}

impl Colony {
    /// Replaces the colony's mission and cells by those of `state`: each
    /// saved cell is added as `add_cell_with_id` adds one and takes its saved
    /// values (see `restores_cell`); then every cell's neighbor list is
    /// recomputed. Where the saved identifiers are distinct, the cells are
    /// those of the snapshot, in its order.
    pub fn load_state(&mut self, state: &ColonyState)
        requires
            old(self).wf(),
        ensures
            final(self).wf(),
            final(self).mission@ == state.mission@,
            unique_saved_ids(state.cells@) ==> {
                &&& final(self).cells@.len() == state.cells@.len()
                &&& forall|k: int|
                    0 <= k < state.cells@.len() ==> restores_cell(
                        #[trigger] final(self).cells@[k],
                        state.cells@[k],
                    )
            },
    {
        self.cells = Vec::new();
        self.mission = state.mission.clone();
        let ghost uniq = unique_saved_ids(state.cells@);
        let mut k: usize = 0;
        while k < state.cells.len()
            invariant
                self.wf(),
                self.mission@ == state.mission@,
                k <= state.cells@.len(),
                uniq == unique_saved_ids(state.cells@),
                uniq ==> self.cells@.len() == k,
                uniq ==> forall|j: int| 0 <= j < k ==> restores_cell(#[trigger] self.cells@[j], state.cells@[j]),
            decreases state.cells@.len() - k,
        {
            let cs = &state.cells[k];
            let ghost before = self.cells@;
            proof {
                if uniq {
                    assert(!has_id(before, cs.id)) by {
                        if has_id(before, cs.id) {
                            let i = choose|i: int| 0 <= i < before.len() && #[trigger] before[i].id == cs.id;
                            assert(restores_cell(before[i], state.cells@[i]));
                            assert(state.cells@[i].id != state.cells@[k as int].id);
                        }
                    }
                }
            }
            let pos = Coordinates::at(cs.x, cs.y, cs.z);
            self.add_cell_with_id(cs.id, pos);
            match self.find_cell(cs.id) {
                Some(i) => {
                    let ghost mid = self.cells@;
                    self.cells[i].energy = cs.energy;
                    self.cells[i].thoughts = copy_thoughts(&cs.thoughts);
                    self.cells[i].current_plan = copy_plan_opt(&cs.current_plan);
                    self.cells[i].dimensional_position = cs.dimensional_position;
                    self.cells[i].dopamine = cs.dopamine;
                    self.cells[i].stability = cs.stability;
                    self.cells[i].phase = cs.phase;
                    self.cells[i].context_alignment_score = cs.context_alignment_score;
                    self.cells[i].mission_alignment_score = cs.mission_alignment_score;
                    proof {
                        assert forall|a: int, b: int| 0 <= a < b < self.cells@.len() implies #[trigger] self.cells@[a].id
                            != #[trigger] self.cells@[b].id by {
                            assert(mid[a].id != mid[b].id);
                        }
                        if uniq {
                            assert(i == k) by {
                                if i != k {
                                    assert(crate::colony::relinked(before[i as int], mid[i as int], cs.id, pos));
                                    assert(restores_cell(before[i as int], state.cells@[i as int]));
                                    assert(state.cells@[i as int].id != state.cells@[k as int].id);
                                }
                            }
                            assert forall|j: int| 0 <= j < k + 1 implies restores_cell(
                                #[trigger] self.cells@[j],
                                state.cells@[j],
                            ) by {
                                if j < k {
                                    assert(crate::colony::relinked(before[j], mid[j], cs.id, pos));
                                    assert(self.cells@[j] == mid[j]);
                                    assert(restores_cell(before[j], state.cells@[j]));
                                }
                            }
                        }
                    }
                },
                None => {},
            }
            k = k + 1;
        }
        let n = self.cells.len();
        let mut i: usize = 0;
        while i < n
            invariant
                self.wf(),
                self.mission@ == state.mission@,
                n == self.cells@.len(),
                i <= n,
                uniq == unique_saved_ids(state.cells@),
                uniq ==> self.cells@.len() == state.cells@.len(),
                uniq ==> forall|j: int|
                    0 <= j < state.cells@.len() ==> restores_cell(#[trigger] self.cells@[j], state.cells@[j]),
            decreases n - i,
        {
            let id = self.cells[i].id;
            let ghost before = self.cells@;
            self.update_neighbors(id);
            proof {
                if uniq {
                    assert forall|j: int| 0 <= j < state.cells@.len() implies restores_cell(
                        #[trigger] self.cells@[j],
                        state.cells@[j],
                    ) by {
                        assert(restores_cell(before[j], state.cells@[j]));
                    }
                }
            }
            i = i + 1;
        }
    }
}

/// Saving a colony and loading the snapshot into any colony gives back,
/// cell for cell and in order, the same identifiers, energies, dimensional
/// positions, dopamine levels and thoughts, and the same mission.
pub proof fn lemma_snapshot_round_trip(
    cells: Seq<Cell>,
    mission: Seq<char>,
    snapshot: ColonyState,
    restored: Seq<Cell>,
    restored_mission: Seq<char>,
)
    requires
        unique_ids(cells),
        is_snapshot_of(snapshot, cells, mission),
        restored_mission == snapshot.mission@,
        unique_saved_ids(snapshot.cells@) ==> {
            &&& restored.len() == snapshot.cells@.len()
            &&& forall|k: int|
                0 <= k < snapshot.cells@.len() ==> restores_cell(#[trigger] restored[k], snapshot.cells@[k])
        },
    ensures
        unique_saved_ids(snapshot.cells@),
        restored_mission == mission,
        restored.len() == cells.len(),
        forall|k: int|
            0 <= k < cells.len() ==> {
                &&& (#[trigger] restored[k]).id == cells[k].id
                &&& restored[k].energy == cells[k].energy
                &&& restored[k].dimensional_position == cells[k].dimensional_position
                &&& restored[k].dopamine == cells[k].dopamine
                &&& restored[k].thoughts@.len() == cells[k].thoughts@.len()
                &&& forall|i: int|
                    0 <= i < cells[k].thoughts@.len() ==> same_thought(
                        #[trigger] restored[k].thoughts@[i],
                        cells[k].thoughts@[i],
                    )
            },
{
    assert forall|i: int, j: int| 0 <= i < j < snapshot.cells@.len() implies #[trigger] snapshot.cells@[i].id
        != #[trigger] snapshot.cells@[j].id by {
        assert(saves_cell(snapshot.cells@[i], cells[i]));
        assert(saves_cell(snapshot.cells@[j], cells[j]));
    }
    assert forall|k: int| 0 <= k < cells.len() implies {
        &&& (#[trigger] restored[k]).id == cells[k].id
        &&& restored[k].energy == cells[k].energy
        &&& restored[k].dimensional_position == cells[k].dimensional_position
        &&& restored[k].dopamine == cells[k].dopamine
        &&& restored[k].thoughts@.len() == cells[k].thoughts@.len()
        &&& forall|i: int|
            0 <= i < cells[k].thoughts@.len() ==> same_thought(
                #[trigger] restored[k].thoughts@[i],
                cells[k].thoughts@[i],
            )
    } by {
        assert(saves_cell(snapshot.cells@[k], cells[k]));
        assert(restores_cell(restored[k], snapshot.cells@[k]));
        assert forall|i: int| 0 <= i < cells[k].thoughts@.len() implies same_thought(
            #[trigger] restored[k].thoughts@[i],
            cells[k].thoughts@[i],
        ) by {
            assert(same_thought(restored[k].thoughts@[i], snapshot.cells@[k].thoughts@[i]));
            assert(same_thought(snapshot.cells@[k].thoughts@[i], cells[k].thoughts@[i]));
        }
    }
}

proof fn lemma_max_grid_coord(cs: Seq<Cell>, n: int, k: int)
    requires
        0 <= k < n <= cs.len(),
    ensures
        grid_coord(cs[k].position.x) <= max_grid_coord(cs, n),
        grid_coord(cs[k].position.y) <= max_grid_coord(cs, n),
        grid_coord(cs[k].position.z) <= max_grid_coord(cs, n),
    decreases n,
{
    if k < n - 1 {
        lemma_max_grid_coord(cs, n - 1, k);
    }
}

} // verus!
