//! Spatial neighborhoods and clusters of cells.
//!
//! Two cells are linked where either lists the other among its neighbors;
//! a cluster is a maximal set of cells connected through links.
use vstd::prelude::*;
use crate::cell::Cell;
use crate::types::Coordinates;

verus! {

/// Distance (in thousandths) below which two cells are neighbors.
pub const NEIGHBOR_DISTANCE_THRESHOLD: i64 = 2000;

pub open spec fn sq(v: int) -> int {
    v * v
}

/// Squared Euclidean distance of two points in space.
pub open spec fn sq_distance(a: Coordinates, b: Coordinates) -> int {
    sq(a.x - b.x) + sq(a.y - b.y) + sq(a.z - b.z)
}

/// Whether `a` and `b` are closer than the neighbor distance.
pub open spec fn within_threshold(a: Coordinates, b: Coordinates) -> bool {
    sq_distance(a, b) < sq(NEIGHBOR_DISTANCE_THRESHOLD as int)
}

proof fn lemma_sq_grows(a: int, t: int)
    requires
        t >= 0,
        a >= t || a <= -t,
    ensures
        sq(a) >= sq(t),
{
    assert(sq(a) >= sq(t)) by (nonlinear_arith)
        requires
            t >= 0,
            a >= t || a <= -t,
    ;
}

/// Whether `a` and `b` are closer than the neighbor distance.
pub fn is_within_threshold(a: &Coordinates, b: &Coordinates) -> (r: bool)
    ensures
        r == within_threshold(*a, *b),
{
    let t: i128 = NEIGHBOR_DISTANCE_THRESHOLD as i128;
    let dx: i128 = a.x as i128 - b.x as i128;
    let dy: i128 = a.y as i128 - b.y as i128;
    let dz: i128 = a.z as i128 - b.z as i128;
    if dx >= t || dx <= -t || dy >= t || dy <= -t || dz >= t || dz <= -t {
        proof {
            lemma_sq_grows(dx as int, 0);
            lemma_sq_grows(dy as int, 0);
            lemma_sq_grows(dz as int, 0);
            if dx >= t || dx <= -t {
                lemma_sq_grows(dx as int, t as int);
            }
            if dy >= t || dy <= -t {
                lemma_sq_grows(dy as int, t as int);
            }
            if dz >= t || dz <= -t {
                lemma_sq_grows(dz as int, t as int);
            }
        }
        return false;
    }
    assert(0 <= dx * dx < 0x1_0000_0000) by (nonlinear_arith)
        requires
            -2000 < dx < 2000,
    ;
    assert(0 <= dy * dy < 0x1_0000_0000) by (nonlinear_arith)
        requires
            -2000 < dy < 2000,
    ;
    assert(0 <= dz * dz < 0x1_0000_0000) by (nonlinear_arith)
        requires
            -2000 < dz < 2000,
    ;
    let sx = dx * dx;
    let sy = dy * dy;
    let sz = dz * dz;
    sx + sy + sz < t * t
}

/// Ids, in order, of the cells of `cs` other than `id` that lie within the
/// neighbor distance of `p`.
pub open spec fn neighbors_of(cs: Seq<Cell>, id: u128, p: Coordinates) -> Seq<u128>
    decreases cs.len(),
{
    if cs.len() == 0 {
        Seq::empty()
    } else {
        let rest = neighbors_of(cs.drop_last(), id, p);
        let c = cs.last();
        if c.id != id && within_threshold(p, c.position) {
            rest.push(c.id)
        } else {
            rest
        }
    }
}

/// Ids of the cells of `cs` other than `id` within the neighbor distance
/// of `p`.
pub fn find_neighbors(cs: &Vec<Cell>, id: u128, p: &Coordinates) -> (r: Vec<u128>)
    ensures
        r@ == neighbors_of(cs@, id, *p),
{
    let mut out: Vec<u128> = Vec::new();
    let mut i: usize = 0;
    while i < cs.len()
        invariant
            i <= cs.len(),
            out@ == neighbors_of(cs@.take(i as int), id, *p),
        decreases cs.len() - i,
    {
        assert(cs@.take(i + 1).drop_last() =~= cs@.take(i as int));
        if cs[i].id != id && is_within_threshold(p, &cs[i].position) {
            out.push(cs[i].id);
        }
        i = i + 1;
    }
    assert(cs@.take(i as int) =~= cs@);
    out
}

/// Cells `u` and `v` are distinct and one lists the other as a neighbor.
pub open spec fn linked(cs: Seq<Cell>, u: int, v: int) -> bool {
    &&& 0 <= u < cs.len()
    &&& 0 <= v < cs.len()
    &&& u != v
    &&& (cs[u].neighbors@.contains(cs[v].id) || cs[v].neighbors@.contains(cs[u].id))
}

/// Cell `j` can be reached from cell `i` over at most `k` links.
pub open spec fn reaches(cs: Seq<Cell>, i: int, j: int, k: nat) -> bool
    decreases k,
{
    if k == 0 {
        i == j
    } else {
        reaches(cs, i, j, (k - 1) as nat) || exists|m: int|
            #[trigger] linked(cs, m, j) && reaches(cs, i, m, (k - 1) as nat)
    }
}

/// Cells `i` and `j` lie in one cluster.
pub open spec fn connected(cs: Seq<Cell>, i: int, j: int) -> bool {
    exists|k: nat| reaches(cs, i, j, k)
}

/// Cell `i` is the first cell of its cluster.
pub open spec fn is_cluster_root(cs: Seq<Cell>, i: int) -> bool {
    forall|j: int| 0 <= j < i ==> !connected(cs, i, j)
}

/// Number of cluster roots among the first `n` cells.
pub open spec fn count_roots(cs: Seq<Cell>, n: int) -> nat
    decreases n,
{
    if n <= 0 {
        0
    } else {
        count_roots(cs, n - 1) + if is_cluster_root(cs, n - 1) {
            1nat
        } else {
            0nat
        }
    }
}

/// Number of clusters of `cs`: each cluster has exactly one first cell.
pub open spec fn cluster_count(cs: Seq<Cell>) -> nat {
    count_roots(cs, cs.len() as int)
}

pub fn contains_id(v: &Vec<u128>, id: u128) -> (r: bool)
    ensures
        r == v@.contains(id),
{
    let mut i: usize = 0;
    while i < v.len()
        invariant
            i <= v.len(),
            forall|j: int| 0 <= j < i ==> v@[j] != id,
        decreases v.len() - i,
    {
        if v[i] == id {
            return true;
        }
        i = i + 1;
    }
    false
}

/// The link matrix of `cs`.
pub open spec fn is_link_matrix(cs: Seq<Cell>, adj: Seq<Vec<bool>>) -> bool {
    &&& adj.len() == cs.len()
    &&& forall|u: int| 0 <= u < cs.len() ==> (#[trigger] adj[u])@.len() == cs.len()
    &&& forall|u: int, v: int|
        0 <= u < cs.len() && 0 <= v < cs.len() ==> (#[trigger] adj[u]@[v] == linked(cs, u, v))
}

fn link_matrix(cs: &Vec<Cell>) -> (r: Vec<Vec<bool>>)
    ensures
        is_link_matrix(cs@, r@),
{
    let n = cs.len();
    let mut adj: Vec<Vec<bool>> = Vec::new();
    let mut u: usize = 0;
    while u < n
        invariant
            n == cs.len(),
            u <= n,
            adj@.len() == u,
            forall|a: int| 0 <= a < u ==> (#[trigger] adj@[a])@.len() == n,
            forall|a: int, b: int|
                0 <= a < u && 0 <= b < n ==> (#[trigger] adj@[a]@[b] == linked(cs@, a, b)),
        decreases n - u,
    {
        let mut row: Vec<bool> = Vec::new();
        let mut v: usize = 0;
        while v < n
            invariant
                n == cs.len(),
                u < n,
                v <= n,
                row@.len() == v,
                forall|b: int| 0 <= b < v ==> (#[trigger] row@[b] == linked(cs@, u as int, b)),
            decreases n - v,
        {
            let l = u != v && (contains_id(&cs[u].neighbors, cs[v].id) || contains_id(
                &cs[v].neighbors,
                cs[u].id,
            ));
            row.push(l);
            v = v + 1;
        }
        adj.push(row);
        u = u + 1;
    }
    adj
}

/// Number of cells not yet marked.
pub open spec fn count_unmarked(s: Seq<bool>) -> nat
    decreases s.len(),
{
    if s.len() == 0 {
        0
    } else {
        count_unmarked(s.drop_last()) + if s.last() {
            0nat
        } else {
            1nat
        }
    }
}

proof fn lemma_count_unmarked_mark(s: Seq<bool>, i: int)
    requires
        0 <= i < s.len(),
        !s[i],
    ensures
        count_unmarked(s.update(i, true)) + 1 == count_unmarked(s),
    decreases s.len(),
{
    if i == s.len() - 1 {
        assert(s.update(i, true).drop_last() =~= s.drop_last());
    } else {
        assert(s.update(i, true).drop_last() =~= s.drop_last().update(i, true));
        lemma_count_unmarked_mark(s.drop_last(), i);
    }
}

proof fn lemma_count_unmarked_all(n: nat)
    ensures
        count_unmarked(Seq::new(n, |k: int| false)) == n,
    decreases n,
{
    if n > 0 {
        assert(Seq::new(n, |k: int| false).drop_last() =~= Seq::new((n - 1) as nat, |k: int| false));
        lemma_count_unmarked_all((n - 1) as nat);
    }
}

proof fn lemma_reaches_step(cs: Seq<Cell>, i: int, u: int, v: int)
    requires
        connected(cs, i, u),
        linked(cs, u, v),
    ensures
        connected(cs, i, v),
{
    let k = choose|k: nat| #[trigger] reaches(cs, i, u, k);
    assert(reaches(cs, i, v, k + 1));
}

proof fn lemma_closed_contains_reached(cs: Seq<Cell>, vis: Seq<bool>, i: int, j: int, k: nat)
    requires
        vis.len() == cs.len(),
        0 <= i < cs.len(),
        vis[i],
        forall|u: int, w: int|
            0 <= u < cs.len() && 0 <= w < cs.len() && vis[u] && #[trigger] linked(cs, u, w)
                ==> vis[w],
        reaches(cs, i, j, k),
    ensures
        0 <= j < cs.len(),
        vis[j],
    decreases k,
{
    if k > 0 {
        if reaches(cs, i, j, (k - 1) as nat) {
            lemma_closed_contains_reached(cs, vis, i, j, (k - 1) as nat);
        } else {
            let m = choose|m: int| #[trigger] linked(cs, m, j) && reaches(cs, i, m, (k - 1) as nat);
            lemma_closed_contains_reached(cs, vis, i, m, (k - 1) as nat);
        }
    }
}

/// Marks, for each cell, whether it lies in the cluster of cell `i`.
fn cluster_of(cs: &Vec<Cell>, adj: &Vec<Vec<bool>>, i: usize) -> (vis: Vec<bool>)
    requires
        is_link_matrix(cs@, adj@),
        i < cs.len(),
    ensures
        vis@.len() == cs.len(),
        forall|v: int| 0 <= v < cs.len() ==> (vis@[v] <==> connected(cs@, i as int, v)),
{
    let n = cs.len();
    let mut vis: Vec<bool> = Vec::new();
    let mut k: usize = 0;
    while k < n
        invariant
            k <= n == cs.len(),
            vis@ == Seq::new(k as nat, |j: int| false),
        decreases n - k,
    {
        vis.push(false);
        assert(vis@ =~= Seq::new((k + 1) as nat, |j: int| false));
        k = k + 1;
    }
    proof {
        lemma_count_unmarked_all(n as nat);
        lemma_count_unmarked_mark(vis@, i as int);
        assert(reaches(cs@, i as int, i as int, 0));
    }
    vis.set(i, true);
    let mut unmarked: usize = n - 1;
    loop
        invariant
            n == cs.len(),
            is_link_matrix(cs@, adj@),
            i < n,
            vis@.len() == n,
            vis@[i as int],
            forall|v: int| 0 <= v < n && vis@[v] ==> connected(cs@, i as int, v),
            unmarked == count_unmarked(vis@),
        decreases unmarked,
    {
        let ghost start = vis@;
        let start_unmarked = unmarked;
        let mut changed = false;
        let mut v: usize = 0;
        while v < n
            invariant
                n == cs.len(),
                is_link_matrix(cs@, adj@),
                i < n,
                v <= n,
                vis@.len() == n,
                vis@[i as int],
                forall|w: int| 0 <= w < n && vis@[w] ==> connected(cs@, i as int, w),
                unmarked == count_unmarked(vis@),
                start_unmarked == count_unmarked(start),
                !changed ==> vis@ == start,
                changed ==> unmarked < start_unmarked,
                !changed ==> forall|u: int, w: int|
                    0 <= u < n && 0 <= w < v && vis@[u] && !vis@[w] ==> !adj@[u]@[w],
            decreases n - v,
        {
            if !vis[v] {
                let mut found = false;
                let mut u: usize = 0;
                while u < n && !found
                    invariant
                        n == cs.len(),
                        is_link_matrix(cs@, adj@),
                        v < n,
                        u <= n,
                        vis@.len() == n,
                        !found ==> forall|x: int| 0 <= x < u ==> !(vis@[x] && adj@[x]@[v as int]),
                        found ==> u < n,
                        found ==> exists|x: int| 0 <= x < n && vis@[x] && adj@[x]@[v as int],
                    decreases n - u + if found { 0int } else { 1int },
                {
                    if vis[u] && adj[u][v] {
                        found = true;
                    } else {
                        u = u + 1;
                    }
                }
                if found {
                    proof {
                        let x = choose|x: int| 0 <= x < n && vis@[x] && adj@[x]@[v as int];
                        assert(adj@[x]@[v as int] == linked(cs@, x, v as int));
                        lemma_reaches_step(cs@, i as int, x, v as int);
                        lemma_count_unmarked_mark(vis@, v as int);
                    }
                    vis.set(v, true);
                    unmarked = unmarked - 1;
                    changed = true;
                }
            }
            v = v + 1;
        }
        if !changed {
            proof {
                assert forall|u: int, w: int|
                    0 <= u < n && 0 <= w < n && vis@[u] && #[trigger] linked(cs@, u, w) implies vis@[w] by {
                    assert(adj@[u]@[w] == linked(cs@, u, w));
                }
                assert forall|v: int| 0 <= v < n && connected(cs@, i as int, v) implies vis@[v] by {
                    let k = choose|k: nat| #[trigger] reaches(cs@, i as int, v, k);
                    lemma_closed_contains_reached(cs@, vis@, i as int, v, k);
                }
            }
            return vis;
        }
    }
}

/// Number of clusters among the cells: maximal sets connected through
/// links, a cell without links being a cluster of its own.
pub fn count_clusters(cs: &Vec<Cell>) -> (r: usize)
    ensures
        r == cluster_count(cs@),
{
    let adj = link_matrix(cs);
    let n = cs.len();
    let mut count: usize = 0;
    let mut i: usize = 0;
    while i < n
        invariant
            n == cs.len(),
            is_link_matrix(cs@, adj@),
            i <= n,
            count == count_roots(cs@, i as int),
            count <= i,
        decreases n - i,
    {
        let vis = cluster_of(cs, &adj, i);
        let mut root = true;
        let mut j: usize = 0;
        while j < i
            invariant
                i < n,
                vis@.len() == n,
                j <= i,
                root == forall|x: int| 0 <= x < j ==> !vis@[x],
            decreases i - j,
        {
            if vis[j] {
                root = false;
            }
            j = j + 1;
        }
        proof {
            if root {
                assert forall|x: int| 0 <= x < i implies !connected(cs@, i as int, x) by {
                    assert(!vis@[x]);
                }
            } else {
                let x = choose|x: int| 0 <= x < i && #[trigger] vis@[x];
                assert(connected(cs@, i as int, x));
            }
        }
        if root {
            count = count + 1;
        }
        i = i + 1;
    }
    count
}

/// A colony without links has one cluster per cell; one whose cells are
/// all linked to each other has a single cluster.
pub proof fn lemma_cluster_count_extremes(cs: Seq<Cell>)
    ensures
        (forall|u: int, v: int| !#[trigger] linked(cs, u, v)) ==> cluster_count(cs) == cs.len(),
        (cs.len() > 0 && forall|u: int, v: int|
            0 <= u < cs.len() && 0 <= v < cs.len() && u != v ==> #[trigger] linked(cs, u, v))
            ==> cluster_count(cs) == 1,
{
    if forall|u: int, v: int| !#[trigger] linked(cs, u, v) {
        lemma_roots_unlinked(cs, cs.len() as int);
    }
    if cs.len() > 0 && forall|u: int, v: int|
        0 <= u < cs.len() && 0 <= v < cs.len() && u != v ==> #[trigger] linked(cs, u, v) {
        lemma_roots_complete(cs, cs.len() as int);
    }
}

/// Cells whose neighbor lists are all empty form one cluster each.
pub proof fn lemma_isolated_cells(cs: Seq<Cell>)
    requires
        forall|k: int| 0 <= k < cs.len() ==> (#[trigger] cs[k]).neighbors@.len() == 0,
    ensures
        cluster_count(cs) == cs.len(),
{
    assert forall|u: int, v: int| !#[trigger] linked(cs, u, v) by {
        if linked(cs, u, v) {
            if cs[u].neighbors@.contains(cs[v].id) {
                let i = choose|i: int| 0 <= i < cs[u].neighbors@.len() && cs[u].neighbors@[i] == cs[v].id;
            } else {
                let i = choose|i: int| 0 <= i < cs[v].neighbors@.len() && cs[v].neighbors@[i] == cs[u].id;
            }
        }
    }
    lemma_cluster_count_extremes(cs);
}

/// A cell added farther than the neighbor distance from every other cell
/// lists no neighbors.
pub proof fn lemma_far_cell_has_no_neighbors(cs: Seq<Cell>, id: u128, p: Coordinates)
    requires
        forall|k: int| 0 <= k < cs.len() ==> !within_threshold(p, #[trigger] cs[k].position),
    ensures
        neighbors_of(cs, id, p).len() == 0,
    decreases cs.len(),
{
    if cs.len() > 0 {
        assert forall|k: int| 0 <= k < cs.drop_last().len() implies !within_threshold(
            p,
            #[trigger] cs.drop_last()[k].position,
        ) by {
            assert(cs.drop_last()[k] == cs[k]);
        }
        lemma_far_cell_has_no_neighbors(cs.drop_last(), id, p);
        assert(!within_threshold(p, cs[cs.len() - 1].position));
    }
}

proof fn lemma_unlinked_reaches_self(cs: Seq<Cell>, i: int, j: int, k: nat)
    requires
        forall|u: int, v: int| !#[trigger] linked(cs, u, v),
        reaches(cs, i, j, k),
    ensures
        i == j,
    decreases k,
{
    if k > 0 {
        if reaches(cs, i, j, (k - 1) as nat) {
            lemma_unlinked_reaches_self(cs, i, j, (k - 1) as nat);
        } else {
            let m = choose|m: int| #[trigger] linked(cs, m, j) && reaches(cs, i, m, (k - 1) as nat);
        }
    }
}

proof fn lemma_roots_unlinked(cs: Seq<Cell>, n: int)
    requires
        forall|u: int, v: int| !#[trigger] linked(cs, u, v),
        0 <= n,
    ensures
        count_roots(cs, n) == n,
    decreases n,
{
    if n > 0 {
        lemma_roots_unlinked(cs, n - 1);
        assert forall|j: int| 0 <= j < n - 1 implies !#[trigger] connected(cs, n - 1, j) by {
            if connected(cs, n - 1, j) {
                let k = choose|k: nat| #[trigger] reaches(cs, n - 1, j, k);
                lemma_unlinked_reaches_self(cs, n - 1, j, k);
            }
        }
    }
}

proof fn lemma_roots_complete(cs: Seq<Cell>, n: int)
    requires
        forall|u: int, v: int|
            0 <= u < cs.len() && 0 <= v < cs.len() && u != v ==> #[trigger] linked(cs, u, v),
        1 <= n <= cs.len(),
    ensures
        count_roots(cs, n) == 1,
    decreases n,
{
    if n == 1 {
        assert(count_roots(cs, 0) == 0);
    } else {
        lemma_roots_complete(cs, n - 1);
        assert(linked(cs, 0, n - 1));
        assert(reaches(cs, n - 1, n - 1, 0));
        assert(linked(cs, n - 1, 0));
        assert(reaches(cs, n - 1, 0, 1));
        assert(connected(cs, n - 1, 0));
    }
}

} // verus!
