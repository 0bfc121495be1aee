//! The colony: owner of all cells and driver of their shared evolution.
use vstd::prelude::*;
use crate::cell::{audited_position, evolved_energy, evolved_stability, Cell};
use crate::dimensional::{average_position, axis_imbalance, balance_of_positions, counter_imbalance_nudge, imbalance_of, nudged, trunc_div};
use crate::ranking::{is_ranked, rank_descending, ranking};
use crate::labels::batch_text;
use crate::types::{ColonyStatistics, DimensionalPosition};
use crate::topology::{cluster_count, contains_id, count_clusters, find_neighbors, is_within_threshold, lemma_cluster_count_extremes, linked, neighbors_of, within_threshold};
use crate::types::{Coordinates, SCALE};
use crate::outside::{fresh_id, random_below};
use crate::reproduction::{child_position, offspring_position, spawns, ReproductionDraw, REPRODUCTION_CHANCE, REPRODUCTION_ENERGY};

verus! {

/// The colony: its cells, keyed by their unique identifiers, and its
/// mission.
pub struct Colony {
    pub cells: Vec<Cell>,
    pub mission: String,
    /// Per cell: identifier, thought count, collaborator count.
    pub leaderboard: Vec<(u128, usize, usize)>,
}

/// Whether some cell of `cs` has identifier `id`.
pub open spec fn has_id(cs: Seq<Cell>, id: u128) -> bool {
    exists|i: int| 0 <= i < cs.len() && #[trigger] cs[i].id == id
}

/// No two cells of `cs` share an identifier.
pub open spec fn unique_ids(cs: Seq<Cell>) -> bool {
    forall|i: int, j: int| 0 <= i < j < cs.len() ==> #[trigger] cs[i].id != #[trigger] cs[j].id
}

/// `c` is a new cell with identifier `id` at `position`, whose neighbors
/// are the cells of `cs` within the neighbor distance.
pub open spec fn is_added_cell(c: Cell, id: u128, position: Coordinates, cs: Seq<Cell>) -> bool {
    &&& c.is_fresh_but_neighbors(id, position)
    &&& c.neighbors@ == neighbors_of(cs, id, position)
}

/// Leaderboard entry of a cell: its identifier, its thought count plus
/// that of its plan, and the number of other cells in its plan.
pub open spec fn leaderboard_entry(c: Cell) -> (u128, usize, usize) {
    match c.current_plan {
        Some(p) => (
            c.id,
            clamp_usize(p.thoughts@.len() as int + c.thoughts@.len() as int),
            collaborators(p.participating_cells@, c.id) as usize,
        ),
        None => (c.id, c.thoughts@.len() as usize, 0),
    }
}

pub open spec fn clamp_usize(v: int) -> usize {
    if v > usize::MAX {
        usize::MAX
    } else {
        v as usize
    }
}

/// Number of entries of `ps` other than `id`.
pub open spec fn collaborators(ps: Seq<u128>, id: u128) -> nat
    decreases ps.len(),
{
    if ps.len() == 0 {
        0
    } else {
        collaborators(ps.drop_last(), id) + if ps.last() != id {
            1nat
        } else {
            0nat
        }
    }
}

fn count_collaborators(ps: &Vec<u128>, id: u128) -> (r: usize)
    ensures
        r == collaborators(ps@, id),
{
    let mut c: usize = 0;
    let mut i: usize = 0;
    while i < ps.len()
        invariant
            i <= ps.len(),
            c == collaborators(ps@.take(i as int), id),
            c <= i,
        decreases ps.len() - i,
    {
        assert(ps@.take(i + 1).drop_last() =~= ps@.take(i as int));
        if ps[i] != id {
            c = c + 1;
        }
        i = i + 1;
    }
    assert(ps@.take(i as int) =~= ps@);
    c
}

/// Sum over the cells of their thought counts.
pub open spec fn total_thoughts(cs: Seq<Cell>) -> int
    decreases cs.len(),
{
    if cs.len() == 0 {
        0
    } else {
        total_thoughts(cs.drop_last()) + cs.last().thoughts@.len()
    }
}

/// Number of cells holding a plan.
pub open spec fn total_plans(cs: Seq<Cell>) -> nat
    decreases cs.len(),
{
    if cs.len() == 0 {
        0
    } else {
        total_plans(cs.drop_last()) + if cs.last().current_plan is Some {
            1nat
        } else {
            0nat
        }
    }
}

/// Sum over the cells of their energies.
pub open spec fn total_energy(cs: Seq<Cell>) -> int
    decreases cs.len(),
{
    if cs.len() == 0 {
        0
    } else {
        total_energy(cs.drop_last()) + cs.last().energy
    }
}

/// Number of cells with energy above `80.0`.
pub open spec fn evolved_cells(cs: Seq<Cell>) -> nat
    decreases cs.len(),
{
    if cs.len() == 0 {
        0
    } else {
        evolved_cells(cs.drop_last()) + if cs.last().energy > 80 * SCALE {
            1nat
        } else {
            0nat
        }
    }
}

/// Largest depth, in whole units, of the cells: the magnitude of `z`
/// rounded down.
pub open spec fn max_depth(cs: Seq<Cell>) -> int
    decreases cs.len(),
{
    if cs.len() == 0 {
        0
    } else {
        let d = crate::dimensional::abs(cs.last().position.z as int) / SCALE as int;
        let m = max_depth(cs.drop_last());
        if d > m {
            d
        } else {
            m
        }
    }
}

/// Positions of the cells of `cs` whose identifiers are listed in `ids`,
/// in list order (unknown identifiers are skipped).
pub open spec fn listed_positions(cs: Seq<Cell>, ids: Seq<u128>) -> Seq<DimensionalPosition>
    decreases ids.len(),
{
    if ids.len() == 0 {
        Seq::empty()
    } else {
        let rest = listed_positions(cs, ids.drop_last());
        if has_id(cs, ids.last()) {
            rest.push(cs[crate::planning::index_of(cs, ids.last())].dimensional_position)
        } else {
            rest
        }
    }
}

/// For each of the first `n` listed identifiers that the colony holds, in
/// list order: the negated imbalance of that cell's position, and the
/// list index.
pub open spec fn balance_entries(cs: Seq<Cell>, ids: Seq<u128>, n: int) -> Seq<(i128, usize)>
    decreases n,
{
    if n <= 0 {
        Seq::empty()
    } else {
        let rest = balance_entries(cs, ids, n - 1);
        if has_id(cs, ids[n - 1]) {
            rest.push(
                (
                    -axis_imbalance(cs[crate::planning::index_of(cs, ids[n - 1])].dimensional_position) as i128,
                    (n - 1) as usize,
                ),
            )
        } else {
            rest
        }
    }
}

/// `c` is `o` after the cell `id` at `p` was added: `o` lists `id` too
/// where `o` is another cell within the neighbor distance of `p` that did
/// not list it yet; nothing else changes.
pub open spec fn relinked(o: Cell, c: Cell, id: u128, p: Coordinates) -> bool {
    &&& c == (Cell { neighbors: c.neighbors, ..o })
    &&& c.neighbors@ == if o.id != id && within_threshold(p, o.position) && !o.neighbors@.contains(id) {
        o.neighbors@.push(id)
    } else {
        o.neighbors@
    }
}

/// `c` is a child with identifier `id` at `p` added to the cells `cs`:
/// fresh but for its neighbor list, which starts with the cells of `cs`
/// within the neighbor distance (later additions may follow them).
pub open spec fn is_added_child(c: Cell, id: u128, p: Coordinates, cs: Seq<Cell>) -> bool {
    let ns = neighbors_of(cs, id, p);
    &&& c.is_fresh_but_neighbors(id, p)
    &&& ns.len() <= c.neighbors@.len()
    &&& c.neighbors@.take(ns.len() as int) == ns
}

/// `c` is `o` with its neighbor list possibly changed.
pub open spec fn same_but_neighbors(o: Cell, c: Cell) -> bool {
    c == (Cell { neighbors: c.neighbors, ..o })
}

/// The children that the first `n` cells of `cs` spawn under the draws
/// `ds` (one per cell): identifier and position, in cell order.
pub open spec fn spawned(cs: Seq<Cell>, ds: Seq<ReproductionDraw>, n: int) -> Seq<(u128, Coordinates)>
    decreases n,
{
    if n <= 0 {
        Seq::empty()
    } else {
        let rest = spawned(cs, ds, n - 1);
        let c = cs[n - 1];
        let d = ds[n - 1];
        if spawns(c.energy, d) {
            rest.push((d.child_id, child_position(c.position, d)))
        } else {
            rest
        }
    }
}

/// Number of the first `n` cells of `cs` with energy above 90.
pub open spec fn high_energy_cells(cs: Seq<Cell>, n: int) -> int
    decreases n,
{
    if n <= 0 {
        0
    } else {
        high_energy_cells(cs, n - 1) + if cs[n - 1].energy > REPRODUCTION_ENERGY {
            1int
        } else {
            0int
        }
    }
}

/// `p` is a valid position less than one unit, on each spatial axis, from
/// some cell of `cs` with energy above 90.
pub open spec fn near_high_energy_parent(cs: Seq<Cell>, p: Coordinates) -> bool {
    &&& p.is_valid()
    &&& exists|j: int|
        0 <= j < cs.len() && (#[trigger] cs[j]).energy > REPRODUCTION_ENERGY && -SCALE < p.x
            - cs[j].position.x < SCALE && -SCALE < p.y - cs[j].position.y < SCALE && -SCALE < p.z
            - cs[j].position.z < SCALE
}

/// The children spawned by the first `n` cells number at most the cells
/// above 90 energy among them, and each lies near such a cell.
pub proof fn lemma_spawned_props(cs: Seq<Cell>, ds: Seq<ReproductionDraw>, n: int)
    requires
        0 <= n <= cs.len(),
        ds.len() == cs.len(),
        forall|k: int| 0 <= k < ds.len() ==> (#[trigger] ds[k]).is_valid(),
    ensures
        spawned(cs, ds, n).len() <= high_energy_cells(cs, n),
        forall|k: int|
            0 <= k < spawned(cs, ds, n).len() ==> near_high_energy_parent(
                cs,
                (#[trigger] spawned(cs, ds, n)[k]).1,
            ),
    decreases n,
{
    if n > 0 {
        lemma_spawned_props(cs, ds, n - 1);
        let c = cs[n - 1];
        let d = ds[n - 1];
        if spawns(c.energy, d) {
            crate::reproduction::lemma_child_near_parent(c.position, d);
            let sp = spawned(cs, ds, n);
            assert forall|k: int| 0 <= k < sp.len() implies near_high_energy_parent(cs, (#[trigger] sp[k]).1) by {
                if k == sp.len() - 1 {
                    assert(cs[n - 1].energy > REPRODUCTION_ENERGY);
                } else {
                    assert(sp[k] == spawned(cs, ds, n - 1)[k]);
                }
            }
        }
    }
}

/// A one-cell colony whose cell has energy above 90 and whose draw
/// succeeds spawns exactly one child, at the child position of that draw;
/// with an identifier other than the parent's, `reproduce_with` adds it.
pub proof fn lemma_single_parent_spawns_one(cs: Seq<Cell>, ds: Seq<ReproductionDraw>)
    requires
        cs.len() == 1,
        ds.len() == 1,
        cs[0].energy > REPRODUCTION_ENERGY,
        ds[0].chance < REPRODUCTION_CHANCE,
        ds[0].child_id != cs[0].id,
    ensures
        spawned(cs, ds, 1) == seq![(ds[0].child_id, child_position(cs[0].position, ds[0]))],
        fresh_children(cs, spawned(cs, ds, 1)),
{
    assert(spawned(cs, ds, 0) =~= Seq::<(u128, Coordinates)>::empty());
    assert(spawned(cs, ds, 1) =~= seq![(ds[0].child_id, child_position(cs[0].position, ds[0]))]);
    let sp = spawned(cs, ds, 1);
    assert forall|k: int| 0 <= k < sp.len() implies !has_id(cs, #[trigger] sp[k].0) by {
        if has_id(cs, sp[k].0) {
            let i = choose|i: int| 0 <= i < cs.len() && #[trigger] cs[i].id == sp[k].0;
            assert(i == 0);
        }
    }
}

/// The children's identifiers are distinct and none is held by a cell of
/// `cs`.
pub open spec fn fresh_children(cs: Seq<Cell>, sp: Seq<(u128, Coordinates)>) -> bool {
    &&& forall|k: int| 0 <= k < sp.len() ==> !has_id(cs, #[trigger] sp[k].0)
    &&& forall|a: int, b: int| 0 <= a < b < sp.len() ==> #[trigger] sp[a].0 != #[trigger] sp[b].0
}

/// Adding a cell within the neighbor distance of a colony's only cell
/// (as `add_cell_with_id` does) makes each list the other as a neighbor
/// and leaves one cluster.
pub proof fn lemma_close_pair_one_cluster(before: Seq<Cell>, after: Seq<Cell>, id: u128, p: Coordinates)
    requires
        before.len() == 1,
        before[0].id != id,
        before[0].neighbors@.len() == 0,
        within_threshold(p, before[0].position),
        after.len() == 2,
        relinked(before[0], after[0], id, p),
        is_added_cell(after[1], id, p, before),
    ensures
        after[1].neighbors@.contains(before[0].id),
        after[0].neighbors@.contains(id),
        cluster_count(after) == 1,
{
    assert(before.drop_last() =~= Seq::<Cell>::empty());
    assert(neighbors_of(before.drop_last(), id, p) =~= Seq::<u128>::empty());
    assert(before.last() == before[0]);
    assert(neighbors_of(before, id, p) =~= seq![before[0].id]);
    assert(after[1].neighbors@[0] == before[0].id);
    assert(after[0].neighbors@[0] == id);
    assert(linked(after, 0, 1));
    assert(linked(after, 1, 0));
    assert forall|u: int, v: int| 0 <= u < after.len() && 0 <= v < after.len() && u != v implies #[trigger] linked(
        after,
        u,
        v,
    ) by {
        if u == 0 {
            assert(v == 1);
        } else {
            assert(u == 1 && v == 0);
        }
    }
    lemma_cluster_count_extremes(after);
}

proof fn lemma_neighbors_same_others(s: Seq<Cell>, t: Seq<Cell>, id: u128, p: Coordinates)
    requires
        s.len() == t.len(),
        forall|k: int|
            0 <= k < s.len() ==> ((#[trigger] s[k]).id == id <==> t[k].id == id) && (s[k].id != id
                ==> s[k].id == t[k].id && s[k].position == t[k].position),
    ensures
        neighbors_of(s, id, p) == neighbors_of(t, id, p),
    decreases s.len(),
{
    if s.len() > 0 {
        lemma_neighbors_same_others(s.drop_last(), t.drop_last(), id, p);
        assert(s.last() == s[s.len() - 1]);
    }
}

impl Colony {
    /// Identifiers are unique.
    pub open spec fn wf(&self) -> bool {
        unique_ids(self.cells@)
    }

    /// An empty colony with the given mission.
    pub fn new(mission: &str) -> (r: Colony)
        ensures
            r.wf(),
            r.cells@.len() == 0,
            r.mission@ == mission@,
    {
        Colony { cells: Vec::new(), mission: mission.to_string(), leaderboard: Vec::new() }
    }

    /// Index of the cell with identifier `id`, if any.
    pub fn find_cell(&self, id: u128) -> (r: Option<usize>)
        requires
            self.wf(),
        ensures
            match r {
                Some(i) => i < self.cells@.len() && self.cells@[i as int].id == id,
                None => !has_id(self.cells@, id),
            },
    {
        let mut i: usize = 0;
        while i < self.cells.len()
            invariant
                i <= self.cells.len(),
                forall|k: int| 0 <= k < i ==> (#[trigger] self.cells@[k]).id != id,
            decreases self.cells.len() - i,
        {
            if self.cells[i].id == id {
                return Some(i);
            }
            i = i + 1;
        }
        None
    }

    /// Recomputes the neighbor list of the cell with identifier `cell_id`:
    /// the other cells within the neighbor distance. Other cells' lists are
    /// left as they were.
    pub fn update_neighbors(&mut self, cell_id: u128)
        requires
            old(self).wf(),
        ensures
            final(self).wf(),
            final(self).mission == old(self).mission,
            final(self).cells@.len() == old(self).cells@.len(),
            forall|k: int|
                0 <= k < old(self).cells@.len() ==> {
                    let c = #[trigger] final(self).cells@[k];
                    let o = old(self).cells@[k];
                    if o.id == cell_id {
                        c == Cell { neighbors: c.neighbors, ..o } && c.neighbors@ == neighbors_of(
                            old(self).cells@,
                            cell_id,
                            o.position,
                        )
                    } else {
                        c == o
                    }
                },
    {
        match self.find_cell(cell_id) {
            Some(i) => {
                let ghost before = self.cells@;
                let position = self.cells[i].position;
                let ns = find_neighbors(&self.cells, cell_id, &position);
                self.cells[i].neighbors = ns;
                proof {
                    assert forall|a: int, b: int| 0 <= a < b < self.cells@.len() implies #[trigger] self.cells@[a].id
                        != #[trigger] self.cells@[b].id by {
                        assert(before[a].id != before[b].id);
                    }
                    assert forall|k: int| 0 <= k < before.len() && before[k].id == cell_id implies k == i by {
                        if k != i {
                            if k < i {
                                assert(before[k].id != before[i as int].id);
                            } else {
                                assert(before[i as int].id != before[k].id);
                            }
                        }
                    }
                }
            },
            None => {},
        }
    }

    /// Inserts a new cell with identifier `id` at `position` (replacing a
    /// cell that holds `id`, in place) and computes its neighbor list; other
    /// cells are left as they were.
    fn insert_cell(&mut self, id: u128, position: Coordinates) -> (r: u128)
        requires
            old(self).wf(),
        ensures
            r == id,
            final(self).wf(),
            final(self).mission == old(self).mission,
            has_id(old(self).cells@, id) ==> {
                &&& final(self).cells@.len() == old(self).cells@.len()
                &&& forall|k: int|
                    0 <= k < old(self).cells@.len() ==> if old(self).cells@[k].id == id {
                        is_added_cell(#[trigger] final(self).cells@[k], id, position, old(self).cells@)
                    } else {
                        final(self).cells@[k] == old(self).cells@[k]
                    }
            },
            !has_id(old(self).cells@, id) ==> {
                &&& final(self).cells@.len() == old(self).cells@.len() + 1
                &&& final(self).cells@.take(old(self).cells@.len() as int) == old(self).cells@
                &&& is_added_cell(
                    final(self).cells@[old(self).cells@.len() as int],
                    id,
                    position,
                    old(self).cells@,
                )
            },
    {
        let ghost before = self.cells@;
        let cell = Cell::with_id(id, position);
        match self.find_cell(id) {
            Some(i) => {
                self.cells.set(i, cell);
                proof {
                    assert forall|k: int| 0 <= k < before.len() && before[k].id == id implies k == i by {
                        if k != i {
                            if k < i {
                                assert(before[k].id != before[i as int].id);
                            } else {
                                assert(before[i as int].id != before[k].id);
                            }
                        }
                    }
                    assert forall|a: int, b: int| 0 <= a < b < self.cells@.len() implies #[trigger] self.cells@[a].id
                        != #[trigger] self.cells@[b].id by {
                        assert(before[a].id != before[b].id);
                    }
                    lemma_neighbors_same_others(self.cells@, before, id, position);
                }
            },
            None => {
                self.cells.push(cell);
                proof {
                    assert forall|a: int, b: int| 0 <= a < b < self.cells@.len() implies #[trigger] self.cells@[a].id
                        != #[trigger] self.cells@[b].id by {
                        if b < before.len() {
                            assert(before[a].id != before[b].id);
                        } else {
                            assert(before[a].id != id);
                        }
                    }
                    assert(self.cells@.drop_last() =~= before);
                    assert(self.cells@.take(before.len() as int) =~= before);
                }
            },
        }
        let ghost mid = self.cells@;
        self.update_neighbors(id);
        proof {
            if !has_id(before, id) {
                assert(mid[before.len() as int].id == id);
                assert(neighbors_of(mid, id, position) == neighbors_of(before, id, position)) by {
                    assert(mid.drop_last() =~= before);
                }
                assert(self.cells@.take(before.len() as int) =~= before) by {
                    assert forall|k: int| 0 <= k < before.len() implies #[trigger] self.cells@[k] == before[k] by {
                        assert(mid[k] == before[k]);
                        assert(before[k].id != id);
                    }
                }
            }
        }
        id
    }

    /// Adds a new cell with identifier `id` at `position`: a cell that
    /// already holds `id` is replaced in place, any other is appended. The
    /// new cell lists the other cells within the neighbor distance, and each
    /// of those lists the new cell (once). Nothing else changes.
    pub fn add_cell_with_id(&mut self, id: u128, position: Coordinates) -> (r: u128)
        requires
            old(self).wf(),
        ensures
            r == id,
            final(self).wf(),
            final(self).mission == old(self).mission,
            final(self).cells@.len() == old(self).cells@.len() + if has_id(old(self).cells@, id) {
                0int
            } else {
                1int
            },
            forall|k: int|
                0 <= k < old(self).cells@.len() ==> if old(self).cells@[k].id == id {
                    is_added_cell(#[trigger] final(self).cells@[k], id, position, old(self).cells@)
                } else {
                    relinked(old(self).cells@[k], final(self).cells@[k], id, position)
                },
            !has_id(old(self).cells@, id) ==> is_added_cell(
                final(self).cells@[old(self).cells@.len() as int],
                id,
                position,
                old(self).cells@,
            ),
    {
        let ghost before = self.cells@;
        self.insert_cell(id, position);
        let ghost mid = self.cells@;
        let n = self.cells.len();
        let mut k: usize = 0;
        while k < n
            invariant
                n == self.cells@.len() == mid.len(),
                k <= n,
                self.mission == old(self).mission,
                forall|j: int| 0 <= j < n ==> (#[trigger] self.cells@[j]).id == mid[j].id,
                forall|j: int|
                    0 <= j < n ==> if j < k && mid[j].id != id {
                        relinked(mid[j], #[trigger] self.cells@[j], id, position)
                    } else {
                        self.cells@[j] == mid[j]
                    },
            decreases n - k,
        {
            if self.cells[k].id != id && is_within_threshold(&position, &self.cells[k].position)
                && !contains_id(&self.cells[k].neighbors, id) {
                self.cells[k].neighbors.push(id);
            }
            k = k + 1;
        }
        proof {
            assert forall|a: int, b: int| 0 <= a < b < self.cells@.len() implies #[trigger] self.cells@[a].id
                != #[trigger] self.cells@[b].id by {
                assert(mid[a].id != mid[b].id);
            }
            assert forall|j: int| 0 <= j < before.len() implies (if before[j].id == id {
                is_added_cell(#[trigger] self.cells@[j], id, position, before)
            } else {
                relinked(before[j], self.cells@[j], id, position)
            }) by {
                if before[j].id != id {
                    if has_id(before, id) {
                        assert(mid[j] == before[j]);
                    } else {
                        assert(mid.take(before.len() as int)[j] == before[j]);
                    }
                }
            }
            if !has_id(before, id) {
                assert(mid[before.len() as int].id == id);
            }
        }
        id
    }

    /// Adds a new cell at `position` with a random identifier, which it
    /// returns, as `add_cell_with_id` adds one.
    pub fn add_cell(&mut self, position: Coordinates) -> (r: u128)
        requires
            old(self).wf(),
        ensures
            final(self).wf(),
            final(self).mission == old(self).mission,
            final(self).cells@.len() == old(self).cells@.len() + if has_id(old(self).cells@, r) {
                0int
            } else {
                1int
            },
            forall|k: int|
                0 <= k < old(self).cells@.len() ==> if old(self).cells@[k].id == r {
                    is_added_cell(#[trigger] final(self).cells@[k], r, position, old(self).cells@)
                } else {
                    relinked(old(self).cells@[k], final(self).cells@[k], r, position)
                },
            !has_id(old(self).cells@, r) ==> is_added_cell(
                final(self).cells@[old(self).cells@.len() as int],
                r,
                position,
                old(self).cells@,
            ),
    {
        self.add_cell_with_id(fresh_id(), position)
    }

    /// Number of clusters: maximal sets of cells connected through neighbor
    /// links, taken in both directions.
    pub fn get_cluster_count(&self) -> (r: usize)
        ensures
            r == cluster_count(self.cells@),
    {
        count_clusters(&self.cells)
    }

    /// The children that the cells spawn under the draws `ds`, one draw per
    /// cell in cell order.
    pub fn spawn_list(&self, ds: &Vec<ReproductionDraw>) -> (r: Vec<(u128, Coordinates)>)
        requires
            ds@.len() == self.cells@.len(),
            forall|k: int| 0 <= k < ds@.len() ==> (#[trigger] ds@[k]).is_valid(),
        ensures
            r@ == spawned(self.cells@, ds@, self.cells@.len() as int),
    {
        let mut out: Vec<(u128, Coordinates)> = Vec::new();
        let mut i: usize = 0;
        while i < self.cells.len()
            invariant
                i <= self.cells.len(),
                ds@.len() == self.cells@.len(),
                forall|k: int| 0 <= k < ds@.len() ==> (#[trigger] ds@[k]).is_valid(),
                out@ == spawned(self.cells@, ds@, i as int),
            decreases self.cells.len() - i,
        {
            let d = ds[i];
            if self.cells[i].energy > REPRODUCTION_ENERGY && d.chance < REPRODUCTION_CHANCE {
                let p = offspring_position(&self.cells[i].position, &d);
                out.push((d.child_id, p));
            }
            i = i + 1;
        }
        out
    }

    /// The entries of `sp` whose identifiers are fresh: held by no cell and
    /// by no earlier kept entry. Where all of `sp` is fresh, all of it.
    pub fn fresh_spawn(&self, sp: &Vec<(u128, Coordinates)>) -> (r: Vec<(u128, Coordinates)>)
        requires
            self.wf(),
        ensures
            fresh_children(self.cells@, r@),
            r@.len() <= sp@.len(),
            forall|k: int| 0 <= k < r@.len() ==> sp@.contains(#[trigger] r@[k]),
            fresh_children(self.cells@, sp@) ==> r@ == sp@,
    {
        let mut kept: Vec<(u128, Coordinates)> = Vec::new();
        let ghost all_fresh = fresh_children(self.cells@, sp@);
        let mut i: usize = 0;
        while i < sp.len()
            invariant
                self.wf(),
                i <= sp@.len(),
                all_fresh == fresh_children(self.cells@, sp@),
                fresh_children(self.cells@, kept@),
                kept@.len() <= i,
                forall|k: int| 0 <= k < kept@.len() ==> sp@.contains(#[trigger] kept@[k]),
                all_fresh ==> kept@ == sp@.take(i as int),
            decreases sp@.len() - i,
        {
            let (id, p) = sp[i];
            let mut taken = false;
            let mut k: usize = 0;
            while k < kept.len() && !taken
                invariant
                    k <= kept@.len(),
                    !taken ==> forall|q: int| 0 <= q < k ==> kept@[q].0 != id,
                    taken ==> exists|q: int| 0 <= q < kept@.len() && kept@[q].0 == id,
                decreases kept@.len() - k + if taken { 0int } else { 1int },
            {
                if kept[k].0 == id {
                    taken = true;
                } else {
                    k = k + 1;
                }
            }
            if !taken && self.find_cell(id).is_none() {
                let ghost before = kept@;
                kept.push((id, p));
                proof {
                    assert(sp@.contains(sp@[i as int]));
                    assert forall|a: int, b: int| 0 <= a < b < kept@.len() implies #[trigger] kept@[a].0
                        != #[trigger] kept@[b].0 by {
                        if b < before.len() {
                            assert(before[a].0 != before[b].0);
                        }
                    }
                    if all_fresh {
                        assert(kept@ =~= sp@.take(i + 1));
                    }
                }
            } else {
                proof {
                    if all_fresh {
                        if taken {
                            let q = choose|q: int| 0 <= q < kept@.len() && kept@[q].0 == id;
                            assert(kept@[q] == sp@[q]);
                            assert(sp@[q].0 != sp@[i as int].0);
                        } else {
                            assert(!has_id(self.cells@, sp@[i as int].0));
                        }
                    }
                }
            }
            i = i + 1;
        }
        proof {
            if all_fresh {
                assert(sp@.take(i as int) =~= sp@);
            }
        }
        kept
    }

    /// Adds the children `sp`, in order, as `add_cell_with_id` adds cells:
    /// the colony grows by exactly them, after the existing cells.
    pub fn add_children(&mut self, sp: &Vec<(u128, Coordinates)>)
        requires
            old(self).wf(),
            fresh_children(old(self).cells@, sp@),
        ensures
            final(self).wf(),
            final(self).mission == old(self).mission,
            final(self).cells@.len() == old(self).cells@.len() + sp@.len(),
            forall|i: int|
                0 <= i < old(self).cells@.len() ==> same_but_neighbors(
                    old(self).cells@[i],
                    #[trigger] final(self).cells@[i],
                ),
            forall|k: int|
                0 <= k < sp@.len() ==> is_added_child(
                    #[trigger] final(self).cells@[old(self).cells@.len() + k],
                    sp@[k].0,
                    sp@[k].1,
                    final(self).cells@.take(old(self).cells@.len() + k),
                ),
    {
        let ghost old_cells = self.cells@;
        let ghost n = old_cells.len() as int;
        let mut k: usize = 0;
        while k < sp.len()
            invariant
                self.wf(),
                self.mission == old(self).mission,
                k <= sp@.len(),
                n == old_cells.len(),
                old_cells == old(self).cells@,
                fresh_children(old_cells, sp@),
                self.cells@.len() == n + k,
                forall|i: int| 0 <= i < n ==> same_but_neighbors(old_cells[i], #[trigger] self.cells@[i]),
                forall|j: int|
                    0 <= j < k ==> is_added_child(
                        #[trigger] self.cells@[n + j],
                        sp@[j].0,
                        sp@[j].1,
                        self.cells@.take(n + j),
                    ),
            decreases sp@.len() - k,
        {
            let ghost before = self.cells@;
            let (id, p) = sp[k];
            proof {
                assert(!has_id(before, id)) by {
                    if has_id(before, id) {
                        let i = choose|i: int| 0 <= i < before.len() && #[trigger] before[i].id == id;
                        if i < n {
                            assert(same_but_neighbors(old_cells[i], before[i]));
                        } else {
                            assert(is_added_child(before[n + (i - n)], sp@[i - n].0, sp@[i - n].1, before.take(n + (i - n))));
                        }
                    }
                }
            }
            self.add_cell_with_id(id, p);
            proof {
                let after = self.cells@;
                assert forall|i: int| 0 <= i < n implies same_but_neighbors(old_cells[i], #[trigger] after[i]) by {
                    assert(relinked(before[i], after[i], id, p));
                }
                assert forall|j: int| 0 <= j < k + 1 implies is_added_child(
                    #[trigger] after[n + j],
                    sp@[j].0,
                    sp@[j].1,
                    after.take(n + j),
                ) by {
                    lemma_neighbors_same_others(after.take(n + j), before.take(n + j), sp@[j].0, sp@[j].1);
                    if j < k {
                        assert(relinked(before[n + j], after[n + j], id, p));
                        assert(is_added_child(before[n + j], sp@[j].0, sp@[j].1, before.take(n + j)));
                        let ns = neighbors_of(before.take(n + j), sp@[j].0, sp@[j].1);
                        if after[n + j].neighbors@ != before[n + j].neighbors@ {
                            assert(after[n + j].neighbors@.take(ns.len() as int) =~= before[n + j].neighbors@.take(ns.len() as int));
                        }
                    } else {
                        assert(before.take(n + j) =~= before);
                        assert(after[n + j].neighbors@.take(after[n + j].neighbors@.len() as int) =~= after[n + j].neighbors@);
                    }
                }
            }
            k = k + 1;
        }
    }

    /// One reproduction cycle under the draws `ds` (one per cell): every
    /// cell with energy above 90 whose chance draw falls under 10% spawns a
    /// child near it (see `spawned`); the children whose identifiers are
    /// fresh are added after the existing cells, in order (see
    /// `add_children`). Where all are fresh, all are added.
    pub fn reproduce_with(&mut self, ds: &Vec<ReproductionDraw>)
        requires
            old(self).wf(),
            ds@.len() == old(self).cells@.len(),
            forall|k: int| 0 <= k < ds@.len() ==> (#[trigger] ds@[k]).is_valid(),
        ensures
            final(self).wf(),
            final(self).mission == old(self).mission,
            ({
                let sp = spawned(old(self).cells@, ds@, old(self).cells@.len() as int);
                let n = old(self).cells@.len() as int;
                &&& n <= final(self).cells@.len() <= n + sp.len()
                &&& forall|i: int|
                    0 <= i < n ==> same_but_neighbors(old(self).cells@[i], #[trigger] final(self).cells@[i])
                &&& forall|k: int|
                    n <= k < final(self).cells@.len() ==> {
                        let c = #[trigger] final(self).cells@[k];
                        &&& sp.contains((c.id, c.position))
                        &&& is_added_child(c, c.id, c.position, final(self).cells@.take(k))
                    }
                &&& fresh_children(old(self).cells@, sp) ==> {
                    &&& final(self).cells@.len() == n + sp.len()
                    &&& forall|k: int|
                        0 <= k < sp.len() ==> is_added_child(
                            #[trigger] final(self).cells@[n + k],
                            sp[k].0,
                            sp[k].1,
                            final(self).cells@.take(n + k),
                        )
                }
            }),
    {
        let sp = self.spawn_list(ds);
        let kept = self.fresh_spawn(&sp);
        let ghost n = self.cells@.len() as int;
        self.add_children(&kept);
        proof {
            assert forall|k: int| n <= k < self.cells@.len() implies {
                let c = #[trigger] self.cells@[k];
                &&& sp@.contains((c.id, c.position))
                &&& is_added_child(c, c.id, c.position, self.cells@.take(k))
            } by {
                let c = self.cells@[n + (k - n)];
                assert(is_added_child(c, kept@[k - n].0, kept@[k - n].1, self.cells@.take(n + (k - n))));
                assert(sp@.contains(kept@[k - n]));
            }
        }
    }

    /// One reproduction cycle with fresh random draws (see
    /// `reproduce_with`): the colony keeps its cells, in order (their
    /// neighbor lists may gain the children), and gains at
    /// most one child per cell with energy above 90; each child has valid
    /// coordinates, lies less than one unit from such a parent on each
    /// spatial axis, and lists its neighbors as an added cell does.
    pub fn handle_cell_reproduction(&mut self)
        requires
            old(self).wf(),
        ensures
            final(self).wf(),
            final(self).mission == old(self).mission,
            ({
                let n = old(self).cells@.len() as int;
                &&& n <= final(self).cells@.len() <= n + high_energy_cells(old(self).cells@, n)
                &&& forall|i: int|
                    0 <= i < n ==> same_but_neighbors(old(self).cells@[i], #[trigger] final(self).cells@[i])
                &&& forall|k: int|
                    n <= k < final(self).cells@.len() ==> {
                        let c = #[trigger] final(self).cells@[k];
                        &&& near_high_energy_parent(old(self).cells@, c.position)
                        &&& is_added_child(c, c.id, c.position, final(self).cells@.take(k))
                    }
            }),
    {
        let mut ds: Vec<ReproductionDraw> = Vec::new();
        let mut i: usize = 0;
        while i < self.cells.len()
            invariant
                i <= self.cells.len(),
                ds@.len() == i,
                forall|k: int| 0 <= k < ds@.len() ==> (#[trigger] ds@[k]).is_valid(),
            decreases self.cells.len() - i,
        {
            let unit = SCALE as u64;
            ds.push(
                ReproductionDraw {
                    child_id: fresh_id(),
                    chance: random_below(unit),
                    dx: random_below(unit),
                    dy: random_below(unit),
                    dz: random_below(unit),
                    heat: random_below(unit),
                    emergence: random_below(unit),
                    coherence: random_below(unit),
                    resilience: random_below(unit),
                    intelligence: random_below(unit),
                    efficiency: random_below(unit),
                    integration: random_below(unit),
                },
            );
            i = i + 1;
        }
        let ghost old_cells = self.cells@;
        self.reproduce_with(&ds);
        proof {
            let n = old_cells.len() as int;
            lemma_spawned_props(old_cells, ds@, n);
            let sp = spawned(old_cells, ds@, n);
            assert forall|k: int| n <= k < self.cells@.len() implies near_high_energy_parent(
                old_cells,
                (#[trigger] self.cells@[k]).position,
            ) by {
                let c = self.cells@[k];
                assert(sp.contains((c.id, c.position)));
                let q = choose|q: int| 0 <= q < sp.len() && sp[q] == (c.id, c.position);
                assert(near_high_energy_parent(old_cells, sp[q].1));
            }
        }
    }

    /// Evolves every cell (see `Cell::evolve`), then audits every cell's
    /// dimensional position against its plan (see `Cell::audit`).
    pub fn evolve_cells(&mut self)
        requires
            old(self).wf(),
        ensures
            final(self).wf(),
            final(self).mission == old(self).mission,
            final(self).cells@.len() == old(self).cells@.len(),
            forall|k: int|
                0 <= k < old(self).cells@.len() ==> {
                    let c = #[trigger] final(self).cells@[k];
                    let o = old(self).cells@[k];
                    &&& c == (Cell {
                        energy: c.energy,
                        stability: c.stability,
                        dimensional_position: c.dimensional_position,
                        ..o
                    })
                    &&& c.energy == evolved_energy(o)
                    &&& c.stability == evolved_stability(o)
                    &&& audited_position(o, c.dimensional_position)
                },
    {
        let n = self.cells.len();
        let mut i: usize = 0;
        while i < n
            invariant
                n == self.cells@.len() == old(self).cells@.len(),
                i <= n,
                self.mission == old(self).mission,
                forall|k: int|
                    0 <= k < n ==> {
                        let c = #[trigger] self.cells@[k];
                        let o = old(self).cells@[k];
                        if k < i {
                            &&& c == (Cell { energy: c.energy, stability: c.stability, ..o })
                            &&& c.energy == evolved_energy(o)
                            &&& c.stability == evolved_stability(o)
                        } else {
                            c == o
                        }
                    },
            decreases n - i,
        {
            self.cells[i].evolve();
            i = i + 1;
        }
        assert(self.wf()) by {
            assert forall|a: int, b: int| 0 <= a < b < self.cells@.len() implies #[trigger] self.cells@[a].id
                != #[trigger] self.cells@[b].id by {
                assert(old(self).cells@[a].id != old(self).cells@[b].id);
            }
        }
        self.audit_dimensional_positions();
    }

    /// Audits every cell's dimensional position against its plan (see
    /// `Cell::audit`).
    pub fn audit_dimensional_positions(&mut self)
        requires
            old(self).wf(),
        ensures
            final(self).wf(),
            final(self).mission == old(self).mission,
            final(self).cells@.len() == old(self).cells@.len(),
            forall|k: int|
                0 <= k < old(self).cells@.len() ==> {
                    let c = #[trigger] final(self).cells@[k];
                    let o = old(self).cells@[k];
                    &&& c == (Cell { dimensional_position: c.dimensional_position, ..o })
                    &&& audited_position(o, c.dimensional_position)
                },
    {
        let n = self.cells.len();
        let mut i: usize = 0;
        while i < n
            invariant
                n == self.cells@.len() == old(self).cells@.len(),
                i <= n,
                self.mission == old(self).mission,
                forall|k: int|
                    0 <= k < n ==> {
                        let c = #[trigger] self.cells@[k];
                        let o = old(self).cells@[k];
                        &&& c == (Cell { dimensional_position: c.dimensional_position, ..o })
                        &&& k < i ==> audited_position(o, c.dimensional_position)
                        &&& k >= i ==> c == o
                    },
            decreases n - i,
        {
            self.cells[i].audit();
            i = i + 1;
        }
        assert(self.wf()) by {
            assert forall|a: int, b: int| 0 <= a < b < self.cells@.len() implies #[trigger] self.cells@[a].id
                != #[trigger] self.cells@[b].id by {
                assert(old(self).cells@[a].id != old(self).cells@[b].id);
            }
        }
    }

    /// Recomputes the leaderboard: one entry per cell, in cell order.
    pub fn update_leaderboard(&mut self)
        ensures
            final(self).cells == old(self).cells,
            final(self).mission == old(self).mission,
            final(self).leaderboard@.len() == old(self).cells@.len(),
            forall|k: int|
                0 <= k < old(self).cells@.len() ==> #[trigger] final(self).leaderboard@[k]
                    == leaderboard_entry(old(self).cells@[k]),
    {
        let mut board: Vec<(u128, usize, usize)> = Vec::new();
        let mut i: usize = 0;
        while i < self.cells.len()
            invariant
                i <= self.cells.len(),
                board@.len() == i,
                forall|k: int| 0 <= k < i ==> #[trigger] board@[k] == leaderboard_entry(self.cells@[k]),
            decreases self.cells.len() - i,
        {
            let c = &self.cells[i];
            let own = c.thoughts.len();
            let entry = match &c.current_plan {
                Some(p) => {
                    let t = if p.thoughts.len() > usize::MAX - own {
                        usize::MAX
                    } else {
                        p.thoughts.len() + own
                    };
                    (c.id, t, count_collaborators(&p.participating_cells, c.id))
                },
                None => (c.id, own, 0),
            };
            board.push(entry);
            i = i + 1;
        }
        self.leaderboard = board;
    }

    /// The leaderboard as last computed: identifier, thought count and
    /// collaborator count per cell.
    pub fn leaderboard(&self) -> (r: &Vec<(u128, usize, usize)>)
        ensures
            r == &self.leaderboard,
    {
        &self.leaderboard
    }

    /// Total number of thoughts held by the cells.
    pub fn get_total_thoughts(&self) -> (r: usize)
        ensures
            r == clamp_usize(total_thoughts(self.cells@)),
    {
        let mut t: usize = 0;
        let mut i: usize = 0;
        while i < self.cells.len()
            invariant
                i <= self.cells.len(),
                t == clamp_usize(total_thoughts(self.cells@.take(i as int))),
            decreases self.cells.len() - i,
        {
            assert(self.cells@.take(i + 1).drop_last() =~= self.cells@.take(i as int));
            proof {
                lemma_total_thoughts_nonneg(self.cells@.take(i as int));
            }
            let n = self.cells[i].thoughts.len();
            t = if t > usize::MAX - n {
                usize::MAX
            } else {
                t + n
            };
            i = i + 1;
        }
        assert(self.cells@.take(i as int) =~= self.cells@);
        t
    }

    /// Number of cells holding a plan.
    pub fn get_total_plans(&self) -> (r: usize)
        ensures
            r == total_plans(self.cells@),
    {
        let mut t: usize = 0;
        let mut i: usize = 0;
        while i < self.cells.len()
            invariant
                i <= self.cells.len(),
                t == total_plans(self.cells@.take(i as int)),
                t <= i,
            decreases self.cells.len() - i,
        {
            assert(self.cells@.take(i + 1).drop_last() =~= self.cells@.take(i as int));
            if self.cells[i].current_plan.is_some() {
                t = t + 1;
            }
            i = i + 1;
        }
        assert(self.cells@.take(i as int) =~= self.cells@);
        t
    }

    /// Mean energy of the cells, rounded toward zero; zero for no cells.
    pub fn get_average_energy(&self) -> (r: i64)
        ensures
            self.cells@.len() == 0 ==> r == 0,
            self.cells@.len() > 0 ==> r == trunc_div(total_energy(self.cells@), self.cells@.len() as int),
    {
        let n = self.cells.len();
        if n == 0 {
            return 0;
        }
        let mut t: i128 = 0;
        let mut i: usize = 0;
        while i < n
            invariant
                n == self.cells@.len(),
                i <= n,
                t == total_energy(self.cells@.take(i as int)),
                i as int * (i64::MIN as int) <= t <= i as int * (i64::MAX as int),
            decreases n - i,
        {
            assert(self.cells@.take(i + 1).drop_last() =~= self.cells@.take(i as int));
            proof {
                assert(i as int * (i64::MAX as int) < 0x1_0000_0000_0000_0000 * 0x8000_0000_0000_0000) by (nonlinear_arith)
                    requires
                        i < 0x1_0000_0000_0000_0000,
                ;
                assert(i as int * (i64::MIN as int) >= -(0x1_0000_0000_0000_0000 * 0x8000_0000_0000_0000)) by (nonlinear_arith)
                    requires
                        0 <= i < 0x1_0000_0000_0000_0000,
                ;
            }
            t = t + self.cells[i].energy as i128;
            i = i + 1;
        }
        assert(self.cells@.take(i as int) =~= self.cells@);
        proof {
            crate::dimensional::lemma_trunc_div_range(t as int, n as int, i64::MIN as int, i64::MAX as int);
        }
        crate::dimensional::div_toward_zero(t, n as i128) as i64
    }

    /// Fraction of the cells with energy above `80.0`, in thousandths
    /// rounded down; zero for no cells.
    pub fn get_mutation_rate(&self) -> (r: i64)
        ensures
            self.cells@.len() == 0 ==> r == 0,
            self.cells@.len() > 0 ==> r == evolved_cells(self.cells@) * SCALE / self.cells@.len() as int,
    {
        let n = self.cells.len();
        if n == 0 {
            return 0;
        }
        let mut c: usize = 0;
        let mut i: usize = 0;
        while i < n
            invariant
                n == self.cells@.len(),
                i <= n,
                c == evolved_cells(self.cells@.take(i as int)),
                c <= i,
            decreases n - i,
        {
            assert(self.cells@.take(i + 1).drop_last() =~= self.cells@.take(i as int));
            if self.cells[i].energy > 80 * SCALE {
                c = c + 1;
            }
            i = i + 1;
        }
        assert(self.cells@.take(i as int) =~= self.cells@);
        assert(c as int * SCALE / n as int <= SCALE) by (nonlinear_arith)
            requires
                c <= n,
                n > 0,
        ;
        ((c as u128 * SCALE as u128) / n as u128) as i64
    }

    /// Largest depth of the cells in whole units: the magnitude of `z`
    /// rounded down; zero for no cells.
    pub fn get_max_depth(&self) -> (r: u64)
        ensures
            r == max_depth(self.cells@),
    {
        let mut m: u64 = 0;
        let mut i: usize = 0;
        while i < self.cells.len()
            invariant
                i <= self.cells.len(),
                m == max_depth(self.cells@.take(i as int)),
            decreases self.cells.len() - i,
        {
            assert(self.cells@.take(i + 1).drop_last() =~= self.cells@.take(i as int));
            let z = self.cells[i].position.z;
            let a: u64 = if z < 0 {
                (-(z as i128)) as u64
            } else {
                z as u64
            };
            let d = a / SCALE as u64;
            if d > m {
                m = d;
            }
            i = i + 1;
        }
        assert(self.cells@.take(i as int) =~= self.cells@);
        m
    }
}

proof fn lemma_total_thoughts_nonneg(cs: Seq<Cell>)
    ensures
        total_thoughts(cs) >= 0,
    decreases cs.len(),
{
    if cs.len() > 0 {
        lemma_total_thoughts_nonneg(cs.drop_last());
    }
}

impl Colony {
    fn position_of_listed(&self, id: u128) -> (r: Option<usize>)
        requires
            self.wf(),
        ensures
            match r {
                Some(i) => has_id(self.cells@, id) && i == crate::planning::index_of(self.cells@, id),
                None => !has_id(self.cells@, id),
            },
    {
        let r = self.find_cell(id);
        proof {
            if let Some(i) = r {
                let c = crate::planning::index_of(self.cells@, id);
                assert(has_id(self.cells@, id));
                if c != i {
                    if c < i {
                        assert(self.cells@[c].id != self.cells@[i as int].id);
                    } else {
                        assert(self.cells@[i as int].id != self.cells@[c].id);
                    }
                }
            }
        }
        r
    }

    /// Average dimensional position of the listed cells (each axis rounded
    /// toward zero) and its imbalance: the mean magnitude of its axes.
    pub fn analyze_dimensional_balance(&self, ids: &Vec<u128>) -> (r: (DimensionalPosition, u64))
        requires
            self.wf(),
            ids@.len() < 0x1_0000_0000,
        ensures
            r.0 == average_position(listed_positions(self.cells@, ids@)),
            r.1 == axis_imbalance(average_position(listed_positions(self.cells@, ids@))),
    {
        let mut ps: Vec<DimensionalPosition> = Vec::new();
        let mut i: usize = 0;
        while i < ids.len()
            invariant
                self.wf(),
                ids@.len() < 0x1_0000_0000,
                i <= ids.len(),
                ps@ == listed_positions(self.cells@, ids@.take(i as int)),
                ps@.len() <= i,
            decreases ids.len() - i,
        {
            assert(ids@.take(i + 1).drop_last() =~= ids@.take(i as int));
            match self.position_of_listed(ids[i]) {
                Some(j) => ps.push(self.cells[j].dimensional_position),
                None => {},
            }
            i = i + 1;
        }
        assert(ids@.take(i as int) =~= ids@);
        balance_of_positions(&ps)
    }

    /// The listed cells that the colony holds, each once, best balanced
    /// (lowest `axis_imbalance`) first; ties keep list order. Entries are
    /// (negated imbalance, list index): see `balance_entries`.
    pub fn rank_by_balance(&self, ids: &Vec<u128>) -> (r: Vec<(i128, usize)>)
        requires
            self.wf(),
        ensures
            r@ == ranking(balance_entries(self.cells@, ids@, ids@.len() as int)),
            is_ranked(r@),
            forall|k: int|
                0 <= k < r@.len() ==> (#[trigger] r@[k]).1 < ids@.len() && has_id(
                    self.cells@,
                    ids@[r@[k].1 as int],
                ) && r@[k].0 == -axis_imbalance(
                    self.cells@[crate::planning::index_of(self.cells@, ids@[r@[k].1 as int])].dimensional_position,
                ),
    {
        let mut es: Vec<(i128, usize)> = Vec::new();
        let mut i: usize = 0;
        while i < ids.len()
            invariant
                self.wf(),
                i <= ids.len(),
                es@ == balance_entries(self.cells@, ids@, i as int),
                forall|k: int|
                    0 <= k < es@.len() ==> (#[trigger] es@[k]).1 < ids@.len() && has_id(
                        self.cells@,
                        ids@[es@[k].1 as int],
                    ) && es@[k].0 == -axis_imbalance(
                        self.cells@[crate::planning::index_of(self.cells@, ids@[es@[k].1 as int])].dimensional_position,
                    ),
            decreases ids.len() - i,
        {
            match self.position_of_listed(ids[i]) {
                Some(j) => {
                    let imb = imbalance_of(&self.cells[j].dimensional_position);
                    es.push((-(imb as i128), i));
                },
                None => {},
            }
            i = i + 1;
        }
        rank_descending(&es)
    }

    /// Applies the counter-imbalance nudge of a batch to the cell with
    /// identifier `cell_id`, if the colony holds it.
    pub fn nudge_cell(&mut self, cell_id: u128, imbalance: u64)
        requires
            old(self).wf(),
        ensures
            final(self).wf(),
            final(self).mission == old(self).mission,
            final(self).cells@.len() == old(self).cells@.len(),
            forall|k: int|
                0 <= k < old(self).cells@.len() ==> {
                    let c = #[trigger] final(self).cells@[k];
                    let o = old(self).cells@[k];
                    &&& c == (Cell { dimensional_position: c.dimensional_position, ..o })
                    &&& o.id != cell_id ==> c == o
                    &&& o.id == cell_id ==> c.dimensional_position == nudged(
                        o.dimensional_position,
                        imbalance as int,
                    )
                },
    {
        match self.find_cell(cell_id) {
            Some(i) => {
                let ghost before = self.cells@;
                counter_imbalance_nudge(&mut self.cells[i].dimensional_position, imbalance);
                proof {
                    assert forall|k: int| 0 <= k < before.len() && before[k].id == cell_id implies k == i by {
                        if k != i {
                            if k < i {
                                assert(before[k].id != before[i as int].id);
                            } else {
                                assert(before[i as int].id != before[k].id);
                            }
                        }
                    }
                    assert forall|a: int, b: int| 0 <= a < b < self.cells@.len() implies #[trigger] self.cells@[a].id
                        != #[trigger] self.cells@[b].id by {
                        assert(before[a].id != before[b].id);
                    }
                }
            },
            None => {},
        }
    }
}

/// Highest evolution stage among the cells (zero for none).
pub open spec fn highest_stage(cs: Seq<Cell>) -> int
    decreases cs.len(),
{
    if cs.len() == 0 {
        0
    } else {
        let s = clamp_u32(cs.last().thoughts@.len() as int / 10 + 1);
        let m = highest_stage(cs.drop_last());
        if s > m {
            s
        } else {
            m
        }
    }
}

pub open spec fn clamp_u32(v: int) -> int {
    if v > u32::MAX {
        u32::MAX as int
    } else {
        v
    }
}

impl Colony {
    /// Cell, thought and plan counts (saturating at `u32::MAX`), mean
    /// energy and the highest evolution stage. Plan outcomes and cycles are
    /// not tracked here and stay zero.
    pub fn get_statistics(&self) -> (r: ColonyStatistics)
        ensures
            r.total_cells == clamp_u32(self.cells@.len() as int),
            r.total_thoughts == clamp_u32(clamp_usize(total_thoughts(self.cells@)) as int),
            r.total_plans == clamp_u32(total_plans(self.cells@) as int),
            r.average_cell_energy == (if self.cells@.len() == 0 {
                0
            } else {
                trunc_div(total_energy(self.cells@), self.cells@.len() as int)
            }),
            r.highest_evolution_stage == highest_stage(self.cells@),
            r.successful_plans == 0 && r.failed_plans == 0 && r.total_cycles == 0,
    {
        let mut best: u32 = 0;
        let mut i: usize = 0;
        while i < self.cells.len()
            invariant
                i <= self.cells.len(),
                best == highest_stage(self.cells@.take(i as int)),
            decreases self.cells.len() - i,
        {
            assert(self.cells@.take(i + 1).drop_last() =~= self.cells@.take(i as int));
            let s = self.cells[i].get_evolution_stage();
            if s > best {
                best = s;
            }
            i = i + 1;
        }
        assert(self.cells@.take(i as int) =~= self.cells@);
        let n = self.cells.len();
        let t = self.get_total_thoughts();
        let p = self.get_total_plans();
        ColonyStatistics {
            total_cells: if n > u32::MAX as usize { u32::MAX } else { n as u32 },
            total_thoughts: if t > u32::MAX as usize { u32::MAX } else { t as u32 },
            total_plans: if p > u32::MAX as usize { u32::MAX } else { p as u32 },
            successful_plans: 0,
            failed_plans: 0,
            average_cell_energy: self.get_average_energy(),
            highest_evolution_stage: best,
            total_cycles: 0,
        }
    }
}

} // verus!
