//! Plan creation: which thoughts feed a cell's plan, how a plan is scored,
//! and how it is shared across the cell's neighborhood.
use vstd::prelude::*;
use crate::cell::Cell;
use crate::colony::{has_id, unique_ids, Colony};
use crate::dimensional::{calculate_dimensional_complement, complement, div_toward_zero, lemma_trunc_div_range, trunc_div};
use crate::ranking::{is_ranked, rank_descending, ranking};
use crate::types::{Plan, PlanNode, PlanStatus, Thought, SCALE};

verus! {

broadcast use vstd::string::group_string_axioms;

/// Most thoughts that feed one plan.
pub const MAX_THOUGHTS_FOR_PLAN: usize = 42;

/// `a` and `b` hold the same texts, in order.
pub open spec fn same_texts(a: Seq<String>, b: Seq<String>) -> bool {
    a.len() == b.len() && forall|i: int| 0 <= i < b.len() ==> (#[trigger] a[i])@ == b[i]@
}

/// `a` is a copy of `b`: identifier, content, timestamp, scores, context
/// tags and real-time factors.
pub open spec fn same_thought(a: Thought, b: Thought) -> bool {
    &&& a.id == b.id
    &&& a.content@ == b.content@
    &&& a.timestamp == b.timestamp
    &&& a.relevance_score == b.relevance_score
    &&& a.confidence_score == b.confidence_score
    &&& same_texts(a.context_tags@, b.context_tags@)
    &&& same_texts(a.real_time_factors@, b.real_time_factors@)
}

fn copy_strings(v: &Vec<String>) -> (r: Vec<String>)
    ensures
        r@.len() == v@.len(),
        forall|i: int| 0 <= i < v@.len() ==> (#[trigger] r@[i])@ == v@[i]@,
{
    let mut out: Vec<String> = Vec::new();
    let mut i: usize = 0;
    while i < v.len()
        invariant
            i <= v.len(),
            out@.len() == i,
            forall|j: int| 0 <= j < i ==> (#[trigger] out@[j])@ == v@[j]@,
        decreases v.len() - i,
    {
        out.push(v[i].clone());
        i = i + 1;
    }
    out
}

/// A copy of `t`.
pub fn copy_thought(t: &Thought) -> (r: Thought)
    ensures
        same_thought(r, *t),
{
    let mut refs: Vec<(u128, String)> = Vec::new();
    let mut i: usize = 0;
    while i < t.referenced_thoughts.len()
        invariant
            i <= t.referenced_thoughts.len(),
        decreases t.referenced_thoughts.len() - i,
    {
        let (c, s) = &t.referenced_thoughts[i];
        refs.push((*c, s.clone()));
        i = i + 1;
    }
    Thought {
        id: t.id,
        content: t.content.clone(),
        timestamp: t.timestamp,
        relevance_score: t.relevance_score,
        context_tags: copy_strings(&t.context_tags),
        real_time_factors: copy_strings(&t.real_time_factors),
        confidence_score: t.confidence_score,
        ascii_visualization: match &t.ascii_visualization {
            Some(s) => Some(s.clone()),
            None => None,
        },
        referenced_thoughts: refs,
    }
}

/// `a` is a copy of `b` in the fields that cells and analyses read.
pub open spec fn same_plan(a: Plan, b: Plan) -> bool {
    &&& a.id == b.id
    &&& a.score == b.score
    &&& a.status == b.status
    &&& a.summary@ == b.summary@
    &&& a.participating_cells@ == b.participating_cells@
    &&& a.thoughts@.len() == b.thoughts@.len()
    &&& forall|i: int| 0 <= i < b.thoughts@.len() ==> same_thought(#[trigger] a.thoughts@[i], b.thoughts@[i])
    &&& a.nodes@.len() == b.nodes@.len()
    &&& forall|i: int| 0 <= i < b.nodes@.len() ==> (#[trigger] a.nodes@[i]).estimated_completion == b.nodes@[i].estimated_completion
}

fn copy_ids(v: &Vec<u128>) -> (r: Vec<u128>)
    ensures
        r@ == v@,
{
    let mut out: Vec<u128> = Vec::new();
    let mut i: usize = 0;
    while i < v.len()
        invariant
            i <= v.len(),
            out@ == v@.take(i as int),
        decreases v.len() - i,
    {
        out.push(v[i]);
        i = i + 1;
    }
    assert(v@.take(i as int) =~= v@);
    out
}

/// A copy of `p`.
pub fn copy_plan(p: &Plan) -> (r: Plan)
    ensures
        same_plan(r, *p),
{
    let mut thoughts: Vec<Thought> = Vec::new();
    let mut i: usize = 0;
    while i < p.thoughts.len()
        invariant
            i <= p.thoughts.len(),
            thoughts@.len() == i,
            forall|j: int| 0 <= j < i ==> same_thought(#[trigger] thoughts@[j], p.thoughts@[j]),
        decreases p.thoughts.len() - i,
    {
        thoughts.push(copy_thought(&p.thoughts[i]));
        i = i + 1;
    }
    let mut nodes: Vec<PlanNode> = Vec::new();
    let mut k: usize = 0;
    while k < p.nodes.len()
        invariant
            k <= p.nodes.len(),
            nodes@.len() == k,
            forall|j: int| 0 <= j < k ==> (#[trigger] nodes@[j]).estimated_completion == p.nodes@[j].estimated_completion,
        decreases p.nodes.len() - k,
    {
        let n = &p.nodes[k];
        nodes.push(
            PlanNode {
                id: n.id,
                title: n.title.clone(),
                description: n.description.clone(),
                dependencies: copy_ids(&n.dependencies),
                estimated_completion: n.estimated_completion,
                status: n.status,
            },
        );
        k = k + 1;
    }
    Plan {
        id: p.id,
        thoughts,
        nodes,
        summary: p.summary.clone(),
        score: p.score,
        participating_cells: copy_ids(&p.participating_cells),
        created_at: p.created_at,
        status: p.status,
    }
}

/// Sum of the relevance scores of `ts`.
pub open spec fn total_relevance(ts: Seq<Thought>) -> int
    decreases ts.len(),
{
    if ts.len() == 0 {
        0
    } else {
        total_relevance(ts.drop_last()) + ts.last().relevance_score
    }
}

/// Score of a plan built from `ts`: their mean relevance, rounded toward
/// zero; zero without thoughts.
pub open spec fn plan_score_of(ts: Seq<Thought>) -> int {
    if ts.len() == 0 {
        0
    } else {
        trunc_div(total_relevance(ts), ts.len() as int)
    }
}

/// Mean relevance of `ts`, rounded toward zero; zero without thoughts.
pub fn plan_score(ts: &Vec<Thought>) -> (r: i64)
    requires
        ts@.len() < 0x1_0000_0000,
    ensures
        r == plan_score_of(ts@),
{
    let n = ts.len();
    if n == 0 {
        return 0;
    }
    let mut t: i128 = 0;
    let mut i: usize = 0;
    while i < n
        invariant
            n == ts@.len() < 0x1_0000_0000,
            i <= n,
            t == total_relevance(ts@.take(i as int)),
            i as int * (i64::MIN as int) <= t <= i as int * (i64::MAX as int),
        decreases n - i,
    {
        assert(ts@.take(i + 1).drop_last() =~= ts@.take(i as int));
        t = t + ts[i].relevance_score as i128;
        i = i + 1;
    }
    assert(ts@.take(i as int) =~= ts@);
    proof {
        lemma_trunc_div_range(t as int, n as int, i64::MIN as int, i64::MAX as int);
    }
    div_toward_zero(t, n as i128) as i64
}

/// Index of the cell with identifier `id` (for identifiers that some cell
/// holds).
pub open spec fn index_of(cs: Seq<Cell>, id: u128) -> int {
    choose|i: int| 0 <= i < cs.len() && cs[i].id == id
}

/// For each listed neighbor of cell `ci` that the colony holds, in list
/// order: its complement with cell `ci` and its index.
pub open spec fn neighbor_entries(cs: Seq<Cell>, ci: int, n: int) -> Seq<(i128, usize)>
    decreases n,
{
    if n <= 0 {
        Seq::empty()
    } else {
        let rest = neighbor_entries(cs, ci, n - 1);
        let id = cs[ci].neighbors@[n - 1];
        if has_id(cs, id) {
            let j = index_of(cs, id);
            rest.push(
                (
                    complement(cs[ci].dimensional_position, cs[j].dimensional_position) as i128,
                    j as usize,
                ),
            )
        } else {
            rest
        }
    }
}

/// For each thought of `ts`, in order: its relevance times `w`, and its
/// index.
pub open spec fn weighted_entries(ts: Seq<Thought>, w: i128, n: int) -> Seq<(i128, usize)>
    decreases n,
{
    if n <= 0 {
        Seq::empty()
    } else {
        weighted_entries(ts, w, n - 1).push(
            ((ts[n - 1].relevance_score * w) as i128, (n - 1) as usize),
        )
    }
}

impl Colony {
    /// The listed neighbors of cell `ci` that the colony holds, with their
    /// complement scores, highest first (ties in list order).
    pub fn ranked_neighbors(&self, ci: usize) -> (r: Vec<(i128, usize)>)
        requires
            self.wf(),
            ci < self.cells@.len(),
        ensures
            r@ == ranking(
                neighbor_entries(self.cells@, ci as int, self.cells@[ci as int].neighbors@.len() as int),
            ),
            is_ranked(r@),
            forall|k: int|
                0 <= k < r@.len() ==> (#[trigger] r@[k]).1 < self.cells@.len() && i64::MIN <= r@[k].0
                    <= i64::MAX,
    {
        let me = &self.cells[ci as usize];
        let mut es: Vec<(i128, usize)> = Vec::new();
        let mut i: usize = 0;
        while i < me.neighbors.len()
            invariant
                self.wf(),
                ci < self.cells@.len(),
                me == &self.cells@[ci as int],
                i <= me.neighbors.len(),
                es@ == neighbor_entries(self.cells@, ci as int, i as int),
                forall|k: int|
                    0 <= k < es@.len() ==> (#[trigger] es@[k]).1 < self.cells@.len() && i64::MIN
                        <= es@[k].0 <= i64::MAX,
            decreases me.neighbors.len() - i,
        {
            match self.find_cell(me.neighbors[i]) {
                Some(j) => {
                    proof {
                        let id = me.neighbors@[i as int];
                        let c = index_of(self.cells@, id);
                        assert(has_id(self.cells@, id));
                        if c != j {
                            if c < j {
                                assert(self.cells@[c].id != self.cells@[j as int].id);
                            } else {
                                assert(self.cells@[j as int].id != self.cells@[c].id);
                            }
                        }
                    }
                    let w = calculate_dimensional_complement(
                        &me.dimensional_position,
                        &self.cells[j].dimensional_position,
                    );
                    es.push((w as i128, j));
                },
                None => {},
            }
            i = i + 1;
        }
        rank_descending(&es)
    }
}

/// The thoughts of `ts` ranked by relevance times `w`, highest first (ties
/// in queue order): their indices.
pub fn ranked_thoughts(ts: &Vec<Thought>, w: i128) -> (r: Vec<(i128, usize)>)
    requires
        i64::MIN <= w <= i64::MAX,
    ensures
        r@ == ranking(weighted_entries(ts@, w, ts@.len() as int)),
        is_ranked(r@),
        forall|k: int| 0 <= k < r@.len() ==> (#[trigger] r@[k]).1 < ts@.len(),
{
    let mut es: Vec<(i128, usize)> = Vec::new();
    let mut i: usize = 0;
    while i < ts.len()
        invariant
            i <= ts.len(),
            i64::MIN <= w <= i64::MAX,
            es@ == weighted_entries(ts@, w, i as int),
            forall|k: int| 0 <= k < es@.len() ==> (#[trigger] es@[k]).1 < i,
        decreases ts.len() - i,
    {
        proof {
            crate::cell::lemma_mul_bound2(
                ts@[i as int].relevance_score as int,
                w as int,
                0x8000_0000_0000_0000,
                0x8000_0000_0000_0000,
            );
        }
        es.push((ts[i].relevance_score as i128 * w, i));
        i = i + 1;
    }
    rank_descending(&es)
}

/// Summary of the plans of one cycle.
#[derive(Debug)]
pub struct PlanAnalysis {
    pub cycle_id: String,
    /// Seconds since the Unix epoch.
    pub timestamp: i64,
    pub total_plans: usize,
    pub successful_plans: usize,
    pub failed_plans: usize,
    pub average_score: i64,
    pub best_plan_id: Option<u128>,
    pub best_plan_score: i64,
    pub best_plan_summary: String,
}

/// Number of plans of `ps` with status `st`.
pub open spec fn status_count(ps: Seq<Plan>, st: PlanStatus) -> nat
    decreases ps.len(),
{
    if ps.len() == 0 {
        0
    } else {
        status_count(ps.drop_last(), st) + if ps.last().status == st {
            1nat
        } else {
            0nat
        }
    }
}

/// Sum of the scores of `ps`.
pub open spec fn score_total(ps: Seq<Plan>) -> int
    decreases ps.len(),
{
    if ps.len() == 0 {
        0
    } else {
        score_total(ps.drop_last()) + ps.last().score
    }
}

/// Index of the best of the first `n` plans (`n > 0`): the highest score,
/// the last such plan on ties.
pub open spec fn best_index(ps: Seq<Plan>, n: int) -> int
    decreases n,
{
    if n <= 1 {
        0
    } else {
        let b = best_index(ps, n - 1);
        if ps[n - 1].score >= ps[b].score {
            n - 1
        } else {
            b
        }
    }
}

proof fn lemma_best_index_range(ps: Seq<Plan>, n: int)
    requires
        n >= 1,
    ensures
        0 <= best_index(ps, n) < n,
    decreases n,
{
    if n > 1 {
        lemma_best_index_range(ps, n - 1);
    }
}

impl PlanAnalysis {
    /// Counts of completed and failed plans, mean score (rounded toward
    /// zero; zero without plans) and the best plan of `plans`.
    pub fn analyze_plans(plans: &Vec<Plan>, cycle_id: &str, timestamp: i64) -> (r: PlanAnalysis)
        requires
            plans@.len() < 0x1_0000_0000,
        ensures
            r.cycle_id@ == cycle_id@,
            r.timestamp == timestamp,
            r.total_plans == plans@.len(),
            r.successful_plans == status_count(plans@, PlanStatus::Completed),
            r.failed_plans == status_count(plans@, PlanStatus::Failed),
            plans@.len() == 0 ==> r.average_score == 0 && r.best_plan_id is None && r.best_plan_score == 0
                && r.best_plan_summary@.len() == 0,
            plans@.len() > 0 ==> {
                let b = best_index(plans@, plans@.len() as int);
                &&& r.average_score == trunc_div(score_total(plans@), plans@.len() as int)
                &&& r.best_plan_id == Some(plans@[b].id)
                &&& r.best_plan_score == plans@[b].score
                &&& r.best_plan_summary@ == plans@[b].summary@
            },
    {
        let n = plans.len();
        let mut ok: usize = 0;
        let mut failed: usize = 0;
        let mut total: i128 = 0;
        let mut best: usize = 0;
        let mut i: usize = 0;
        while i < n
            invariant
                n == plans@.len() < 0x1_0000_0000,
                i <= n,
                ok == status_count(plans@.take(i as int), PlanStatus::Completed),
                failed == status_count(plans@.take(i as int), PlanStatus::Failed),
                ok <= i && failed <= i,
                total == score_total(plans@.take(i as int)),
                i as int * (i64::MIN as int) <= total <= i as int * (i64::MAX as int),
                i > 0 ==> best == best_index(plans@, i as int),
                i > 0 ==> best < i,
            decreases n - i,
        {
            assert(plans@.take(i + 1).drop_last() =~= plans@.take(i as int));
            let p = &plans[i];
            if p.status == PlanStatus::Completed {
                ok = ok + 1;
            }
            if p.status == PlanStatus::Failed {
                failed = failed + 1;
            }
            total = total + p.score as i128;
            if i == 0 || p.score >= plans[best].score {
                best = i;
            }
            i = i + 1;
        }
        assert(plans@.take(i as int) =~= plans@);
        if n == 0 {
            return PlanAnalysis {
                cycle_id: cycle_id.to_string(),
                timestamp,
                total_plans: 0,
                successful_plans: ok,
                failed_plans: failed,
                average_score: 0,
                best_plan_id: None,
                best_plan_score: 0,
                best_plan_summary: String::new(),
            };
        }
        proof {
            lemma_trunc_div_range(total as int, n as int, i64::MIN as int, i64::MAX as int);
        }
        PlanAnalysis {
            cycle_id: cycle_id.to_string(),
            timestamp,
            total_plans: n,
            successful_plans: ok,
            failed_plans: failed,
            average_score: div_toward_zero(total, n as i128) as i64,
            best_plan_id: Some(plans[best].id),
            best_plan_score: plans[best].score,
            best_plan_summary: plans[best].summary.clone(),
        }
    }
}

/// Sources of the thoughts of a neighbor's block: the neighbor `e.1`'s
/// thoughts ranked by relevance times the complement `e.0`.
pub open spec fn thought_block(cs: Seq<Cell>, e: (i128, usize)) -> Seq<(usize, usize)> {
    let ts = cs[e.1 as int].thoughts@;
    let rt = ranking(weighted_entries(ts, e.0, ts.len() as int));
    Seq::new(rt.len(), |q: int| (e.1, rt[q].1))
}

/// The blocks of the first `a` ranked neighbors `rn`, one after another.
pub open spec fn thought_blocks(cs: Seq<Cell>, rn: Seq<(i128, usize)>, a: int) -> Seq<(usize, usize)>
    decreases a,
{
    if a <= 0 {
        Seq::empty()
    } else {
        thought_blocks(cs, rn, a - 1) + thought_block(cs, rn[a - 1])
    }
}

/// The first `n` thoughts of cell `ci`, oldest first.
pub open spec fn own_sources(ci: usize, n: int) -> Seq<(usize, usize)> {
    Seq::new(n as nat, |k: int| (ci, k as usize))
}

/// Sources of the thoughts of cell `ci`'s plan: its own thoughts, oldest
/// first; then, neighbor by neighbor from the best complement down, each
/// neighbor's thoughts by relevance times that complement, highest first;
/// the first `MAX_THOUGHTS_FOR_PLAN` of these.
pub open spec fn plan_sources(cs: Seq<Cell>, ci: usize) -> Seq<(usize, usize)> {
    let rn = ranking(neighbor_entries(cs, ci as int, cs[ci as int].neighbors@.len() as int));
    let all = own_sources(ci, cs[ci as int].thoughts@.len() as int) + thought_blocks(cs, rn, rn.len() as int);
    if all.len() > MAX_THOUGHTS_FOR_PLAN {
        all.take(MAX_THOUGHTS_FOR_PLAN as int)
    } else {
        all
    }
}

proof fn lemma_weighted_indices(ts: Seq<Thought>, w: i128, n: int)
    requires
        0 <= n <= ts.len(),
        n <= usize::MAX,
    ensures
        weighted_entries(ts, w, n).len() == n,
        forall|k: int| 0 <= k < n ==> (#[trigger] weighted_entries(ts, w, n)[k]).1 == k,
    decreases n,
{
    if n > 0 {
        lemma_weighted_indices(ts, w, n - 1);
    }
}

proof fn lemma_sources_valid(cs: Seq<Cell>, ci: usize, rn: Seq<(i128, usize)>, a: int)
    requires
        0 <= a <= rn.len(),
        ci < cs.len(),
        forall|q: int| 0 <= q < rn.len() ==> (#[trigger] rn[q]).1 < cs.len(),
    ensures
        forall|k: int|
            0 <= k < thought_blocks(cs, rn, a).len() ==> (#[trigger] thought_blocks(cs, rn, a)[k]).0
                < cs.len() && thought_blocks(cs, rn, a)[k].1 < cs[thought_blocks(cs, rn, a)[k].0 as int].thoughts@.len(),
    decreases a,
{
    if a > 0 {
        lemma_sources_valid(cs, ci, rn, a - 1);
        let e = rn[a - 1];
        let ts = cs[e.1 as int].thoughts@;
        let we = weighted_entries(ts, e.0, ts.len() as int);
        assert(ts.len() == cs[e.1 as int].thoughts.len());
        lemma_weighted_indices(ts, e.0, ts.len() as int);
        let rt = ranking(we);
        assert forall|q: int| 0 <= q < rt.len() implies (#[trigger] rt[q]).1 < ts.len() by {
            lemma_ranking_members(we, q);
        }
        let prev = thought_blocks(cs, rn, a - 1);
        let blk = thought_block(cs, e);
        assert forall|k: int| 0 <= k < (prev + blk).len() implies (#[trigger] (prev + blk)[k]).0 < cs.len()
            && (prev + blk)[k].1 < cs[(prev + blk)[k].0 as int].thoughts@.len() by {
            if k >= prev.len() {
                assert((prev + blk)[k] == blk[k - prev.len()]);
            }
        }
    }
}

proof fn lemma_ranking_members(v: Seq<(i128, usize)>, q: int)
    requires
        0 <= q < ranking(v).len(),
    ensures
        v.contains(ranking(v)[q]),
{
    crate::ranking::lemma_ranking_multiset(v);
    vstd::seq_lib::to_multiset_contains(ranking(v), ranking(v)[q]);
    vstd::seq_lib::to_multiset_contains(v, ranking(v)[q]);
}

/// The first line of `s`: up to its first line feed, without a carriage
/// return before it.
pub open spec fn first_line(s: Seq<char>) -> Seq<char> {
    let l = s.take(crate::parse::find_from(s, '\n', 0));
    if l.len() > 0 && l.last() == '\r' {
        l.drop_last()
    } else {
        l
    }
}

/// Summary made of the first lines of the first three of `ts`, joined by
/// `" | "`.
pub open spec fn fallback_summary(ts: Seq<Thought>) -> Seq<char>
    decreases ts.len(),
{
    let n = if ts.len() > 3 { 3 } else { ts.len() as int };
    joined_lines(ts, n)
}

pub open spec fn joined_lines(ts: Seq<Thought>, n: int) -> Seq<char>
    decreases n,
{
    if n <= 0 {
        Seq::empty()
    } else if n == 1 {
        first_line(ts[0].content@)
    } else {
        joined_lines(ts, n - 1) + " | "@ + first_line(ts[n - 1].content@)
    }
}

fn first_line_of(s: &str) -> (r: &str)
    ensures
        r@ == first_line(s@),
{
    let cs = crate::text::chars_of(s);
    let e = crate::parse::find_char(&cs, 0, cs.len(), '\n');
    assert(cs@.subrange(0, cs@.len() as int) =~= cs@);
    let e2 = if e > 0 && cs[e - 1] == '\r' {
        e - 1
    } else {
        e
    };
    proof {
        let l = s@.take(e as int);
        if e > 0 && cs@[e - 1] == '\r' {
            assert(l.drop_last() =~= s@.subrange(0, e2 as int));
        } else {
            assert(l =~= s@.subrange(0, e2 as int));
        }
    }
    s.substring_char(0, e2)
}

fn summary_from(ts: &Vec<Thought>) -> (r: String)
    ensures
        r@ == fallback_summary(ts@),
{
    let n: usize = if ts.len() > 3 { 3 } else { ts.len() };
    let mut out = String::new();
    let mut i: usize = 0;
    while i < n
        invariant
            n <= ts@.len(),
            n == if ts@.len() > 3 { 3 } else { ts@.len() as int },
            i <= n,
            out@ == joined_lines(ts@, i as int),
        decreases n - i,
    {
        if i > 0 {
            out.append(" | ");
        }
        out.append(first_line_of(ts[i].content.as_str()));
        proof {
            if i == 0 {
                assert(out@ =~= joined_lines(ts@, 1));
            }
        }
        i = i + 1;
    }
    out
}

impl Colony {
    /// Where the thoughts of cell `ci`'s plan come from, as (cell index,
    /// thought index) pairs: see `plan_sources`.
    pub fn plan_thought_sources(&self, ci: usize) -> (r: Vec<(usize, usize)>)
        requires
            self.wf(),
            ci < self.cells@.len(),
        ensures
            r@ == plan_sources(self.cells@, ci),
            r@.len() <= MAX_THOUGHTS_FOR_PLAN,
            forall|k: int|
                0 <= k < r@.len() ==> (#[trigger] r@[k]).0 < self.cells@.len() && r@[k].1
                    < self.cells@[r@[k].0 as int].thoughts@.len(),
    {
        let mut out: Vec<(usize, usize)> = Vec::new();
        let own = self.cells[ci].thoughts.len();
        let mut k: usize = 0;
        while k < own
            invariant
                ci < self.cells@.len(),
                own == self.cells@[ci as int].thoughts@.len(),
                k <= own,
                out@ == own_sources(ci, k as int),
            decreases own - k,
        {
            out.push((ci, k));
            assert(out@ =~= own_sources(ci, k + 1));
            k = k + 1;
        }
        let ranked = self.ranked_neighbors(ci);
        let ghost own_part = own_sources(ci, own as int);
        assert(out@ =~= own_part + thought_blocks(self.cells@, ranked@, 0));
        let mut a: usize = 0;
        while a < ranked.len()
            invariant
                self.wf(),
                ci < self.cells@.len(),
                own == self.cells@[ci as int].thoughts@.len(),
                own_part == own_sources(ci, own as int),
                a <= ranked@.len(),
                forall|q: int|
                    0 <= q < ranked@.len() ==> (#[trigger] ranked@[q]).1 < self.cells@.len() && i64::MIN
                        <= ranked@[q].0 <= i64::MAX,
                out@ == own_part + thought_blocks(self.cells@, ranked@, a as int),
            decreases ranked@.len() - a,
        {
            let (w, j) = ranked[a];
            let rt = ranked_thoughts(&self.cells[j].thoughts, w);
            let ghost start = out@;
            let mut b: usize = 0;
            while b < rt.len()
                invariant
                    b <= rt@.len(),
                    out@ == start + Seq::new(b as nat, |q: int| (j, rt@[q].1)),
                decreases rt@.len() - b,
            {
                out.push((j, rt[b].1));
                assert(out@ =~= start + Seq::new((b + 1) as nat, |q: int| (j, rt@[q].1)));
                b = b + 1;
            }
            proof {
                assert(Seq::new(rt@.len(), |q: int| (j, rt@[q].1)) =~= thought_block(self.cells@, ranked@[a as int]));
                assert(thought_blocks(self.cells@, ranked@, a + 1) == thought_blocks(self.cells@, ranked@, a as int)
                    + thought_block(self.cells@, ranked@[a as int]));
                assert(out@ =~= own_part + thought_blocks(self.cells@, ranked@, a + 1));
            }
            a = a + 1;
        }
        proof {
            lemma_sources_valid(self.cells@, ci, ranked@, ranked@.len() as int);
        }
        if out.len() > MAX_THOUGHTS_FOR_PLAN {
            out.truncate(MAX_THOUGHTS_FOR_PLAN);
        }
        out
    }

    /// The plan of cell `ci`: copies of the thoughts at `sources`, the given
    /// nodes and identifier, scored by the mean relevance of its thoughts,
    /// shared with the cell's listed neighbors, proposed. An empty `summary`
    /// is replaced by the first lines of its first three thoughts.
    pub fn make_plan(
        &self,
        ci: usize,
        sources: &Vec<(usize, usize)>,
        id: u128,
        nodes: Vec<PlanNode>,
        summary: String,
        created_at: i64,
    ) -> (r: Plan)
        requires
            ci < self.cells@.len(),
            sources@.len() <= MAX_THOUGHTS_FOR_PLAN,
            forall|k: int|
                0 <= k < sources@.len() ==> (#[trigger] sources@[k]).0 < self.cells@.len()
                    && sources@[k].1 < self.cells@[sources@[k].0 as int].thoughts@.len(),
        ensures
            r.id == id,
            r.nodes == nodes,
            r.created_at == created_at,
            r.status == PlanStatus::Proposed,
            r.thoughts@.len() == sources@.len(),
            forall|k: int|
                0 <= k < sources@.len() ==> same_thought(
                    #[trigger] r.thoughts@[k],
                    self.cells@[sources@[k].0 as int].thoughts@[sources@[k].1 as int],
                ),
            r.score == plan_score_of(r.thoughts@),
            r.participating_cells@ == seq![self.cells@[ci as int].id] + self.cells@[ci as int].neighbors@,
            summary@.len() > 0 ==> r.summary@ == summary@,
            summary@.len() == 0 ==> r.summary@ == fallback_summary(r.thoughts@),
    {
        let mut thoughts: Vec<Thought> = Vec::new();
        let mut k: usize = 0;
        while k < sources.len()
            invariant
                k <= sources@.len() <= MAX_THOUGHTS_FOR_PLAN,
                thoughts@.len() == k,
                forall|m: int|
                    0 <= m < sources@.len() ==> (#[trigger] sources@[m]).0 < self.cells@.len()
                        && sources@[m].1 < self.cells@[sources@[m].0 as int].thoughts@.len(),
                forall|m: int|
                    0 <= m < k ==> same_thought(
                        #[trigger] thoughts@[m],
                        self.cells@[sources@[m].0 as int].thoughts@[sources@[m].1 as int],
                    ),
            decreases sources@.len() - k,
        {
            let (a, b) = sources[k];
            thoughts.push(copy_thought(&self.cells[a].thoughts[b]));
            k = k + 1;
        }
        let score = plan_score(&thoughts);
        let me = &self.cells[ci];
        let mut participants: Vec<u128> = Vec::new();
        participants.push(me.id);
        let mut i: usize = 0;
        while i < me.neighbors.len()
            invariant
                i <= me.neighbors@.len(),
                participants@ == seq![me.id] + me.neighbors@.take(i as int),
            decreases me.neighbors@.len() - i,
        {
            participants.push(me.neighbors[i]);
            assert(me.neighbors@.take(i + 1) =~= me.neighbors@.take(i as int).push(me.neighbors@[i as int]));
            i = i + 1;
        }
        assert(me.neighbors@.take(i as int) =~= me.neighbors@);
        let summary = if summary.as_str().is_empty() {
            summary_from(&thoughts)
        } else {
            summary
        };
        Plan {
            id,
            thoughts,
            nodes,
            summary,
            score,
            participating_cells: participants,
            created_at,
            status: PlanStatus::Proposed,
        }
    }

    /// Gives every participant of `plan` that the colony holds a copy of
    /// it as its current plan, replacing any plan it had. Nothing else
    /// changes.
    pub fn assign_plan(&mut self, plan: &Plan)
        requires
            old(self).wf(),
        ensures
            final(self).wf(),
            final(self).mission == old(self).mission,
            final(self).cells@.len() == old(self).cells@.len(),
            forall|k: int|
                0 <= k < old(self).cells@.len() ==> {
                    let c = #[trigger] final(self).cells@[k];
                    let o = old(self).cells@[k];
                    if plan.participating_cells@.contains(o.id) {
                        &&& c == (Cell { current_plan: c.current_plan, ..o })
                        &&& c.current_plan matches Some(p) && same_plan(p, *plan)
                    } else {
                        c == o
                    }
                },
    {
        let n = self.cells.len();
        let mut i: usize = 0;
        while i < n
            invariant
                n == self.cells@.len() == old(self).cells@.len(),
                i <= n,
                self.mission == old(self).mission,
                forall|k: int|
                    0 <= k < n ==> {
                        let c = #[trigger] self.cells@[k];
                        let o = old(self).cells@[k];
                        if k < i && plan.participating_cells@.contains(o.id) {
                            &&& c == (Cell { current_plan: c.current_plan, ..o })
                            &&& c.current_plan matches Some(p) && same_plan(p, *plan)
                        } else {
                            c == o
                        }
                    },
            decreases n - i,
        {
            let id = self.cells[i].id;
            let mut member = false;
            let mut m: usize = 0;
            while m < plan.participating_cells.len() && !member
                invariant
                    m <= plan.participating_cells@.len(),
                    member ==> plan.participating_cells@.contains(id),
                    !member ==> forall|x: int| 0 <= x < m ==> plan.participating_cells@[x] != id,
                decreases plan.participating_cells@.len() - m + if member { 0int } else { 1int },
            {
                if plan.participating_cells[m] == id {
                    member = true;
                } else {
                    m = m + 1;
                }
            }
            if member {
                self.cells[i].current_plan = Some(copy_plan(plan));
            }
            i = i + 1;
        }
        assert(self.wf()) by {
            assert forall|a: int, b: int| 0 <= a < b < self.cells@.len() implies #[trigger] self.cells@[a].id
                != #[trigger] self.cells@[b].id by {
                assert(old(self).cells@[a].id != old(self).cells@[b].id);
            }
        }
    }
}

} // verus!
