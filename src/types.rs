//! Plain data of the colony: dimensional positions, coordinates, thoughts
//! and plans.
//!
//! Every fractional quantity is held in fixed point, in thousandths of a
//! unit: an energy of `95.0` is `95_000`, a relevance of `0.8` is `800`.
use vstd::prelude::*;

verus! {

/// Number of fixed-point steps in one unit.
pub const SCALE: i64 = 1000;

/// Largest magnitude of a dimensional axis or score (`100.0`).
pub const AXIS_LIMIT: i64 = 100_000;

/// Largest energy of a cell (`100.0`).
pub const MAX_ENERGY: i64 = 100_000;

/// Clamps `v` into the closed range `[lo, hi]`.
pub open spec fn clamp(v: int, lo: int, hi: int) -> int {
    if v < lo {
        lo
    } else if v > hi {
        hi
    } else {
        v
    }
}

/// Adds `a` and `b`, clamping the sum into the range of `i64`.
pub fn saturating_add_i64(a: i64, b: i64) -> (r: i64)
    ensures
        r == clamp(a + b, i64::MIN as int, i64::MAX as int),
{
    let s: i128 = a as i128 + b as i128;
    if s < i64::MIN as i128 {
        i64::MIN
    } else if s > i64::MAX as i128 {
        i64::MAX
    } else {
        s as i64
    }
}

/// Six-axis abstract state of a cell (emergence, coherence, resilience,
/// intelligence, efficiency, integration), each nominally in `[-100, 100]`.
#[derive(Clone, Copy, Debug, PartialEq, Eq, Structural)]
pub struct DimensionalPosition {
    pub emergence: i64,
    pub coherence: i64,
    pub resilience: i64,
    pub intelligence: i64,
    pub efficiency: i64,
    pub integration: i64,
}

impl DimensionalPosition {
    /// The six axes, in declaration order.
    pub open spec fn axes(&self) -> Seq<int> {
        seq![
            self.emergence as int,
            self.coherence as int,
            self.resilience as int,
            self.intelligence as int,
            self.efficiency as int,
            self.integration as int,
        ]
    }

    /// Every axis lies in `[-100, 100]`.
    pub open spec fn in_range(&self) -> bool {
        forall|k: int| 0 <= k < 6 ==> -AXIS_LIMIT <= #[trigger] self.axes()[k] <= AXIS_LIMIT
    }
}

/// Spatial position of a cell, its heat and its six dimensional scores.
#[derive(Clone, Copy, Debug, PartialEq, Eq, Structural)]
pub struct Coordinates {
    pub x: i64,
    pub y: i64,
    pub z: i64,
    /// Overall activity, in `[0, 1]`.
    pub heat: i64,
    pub emergence_score: i64,
    pub coherence_score: i64,
    pub resilience_score: i64,
    pub intelligence_score: i64,
    pub efficiency_score: i64,
    pub integration_score: i64,
}

impl Coordinates {
    /// The six dimensional scores, in declaration order.
    pub open spec fn scores(&self) -> Seq<int> {
        seq![
            self.emergence_score as int,
            self.coherence_score as int,
            self.resilience_score as int,
            self.intelligence_score as int,
            self.efficiency_score as int,
            self.integration_score as int,
        ]
    }

    /// Heat lies in `[0, 1]` and every score in `[-100, 100]`.
    pub open spec fn is_valid(&self) -> bool {
        &&& 0 <= self.heat <= SCALE
        &&& forall|k: int| 0 <= k < 6 ==> -AXIS_LIMIT <= #[trigger] self.scores()[k] <= AXIS_LIMIT
    }

    /// A point in space with zero heat and zero scores.
    pub fn at(x: i64, y: i64, z: i64) -> (r: Coordinates)
        ensures
            r.x == x && r.y == y && r.z == z,
            r.heat == 0,
            forall|k: int| 0 <= k < 6 ==> #[trigger] r.scores()[k] == 0,
            r.is_valid(),
    {
        Coordinates {
            x,
            y,
            z,
            heat: 0,
            emergence_score: 0,
            coherence_score: 0,
            resilience_score: 0,
            intelligence_score: 0,
            efficiency_score: 0,
            integration_score: 0,
        }
    }
}

/// A scored unit of generated text, immutable once created.
#[derive(Clone, Debug)]
pub struct Thought {
    pub id: u128,
    pub content: String,
    /// Seconds since the Unix epoch.
    pub timestamp: i64,
    /// In `[0, 1]`.
    pub relevance_score: i64,
    pub context_tags: Vec<String>,
    pub real_time_factors: Vec<String>,
    /// In `[0, 1]`.
    pub confidence_score: i64,
    pub ascii_visualization: Option<String>,
    /// Pairs of (cell id, thought id).
    pub referenced_thoughts: Vec<(u128, String)>,
}

#[derive(Clone, Copy, Debug, PartialEq, Eq, Structural)]
pub enum PlanNodeStatus {
    Pending,
    InProgress,
    Completed,
    Blocked,
    Failed,
}

/// One step of a plan.
#[derive(Clone, Debug)]
pub struct PlanNode {
    pub id: u128,
    pub title: String,
    pub description: String,
    pub dependencies: Vec<u128>,
    /// In `[0, 1]`.
    pub estimated_completion: i64,
    pub status: PlanNodeStatus,
}

#[derive(Clone, Copy, Debug, PartialEq, Eq, Structural)]
pub enum PlanStatus {
    Proposed,
    InProgress,
    Completed,
    Failed,
}

/// A scored aggregation of thoughts shared by a cell and its neighbors.
#[derive(Clone, Debug)]
pub struct Plan {
    pub id: u128,
    pub thoughts: Vec<Thought>,
    pub nodes: Vec<PlanNode>,
    pub summary: String,
    pub score: i64,
    pub participating_cells: Vec<u128>,
    /// Seconds since the Unix epoch.
    pub created_at: i64,
    pub status: PlanStatus,
}

/// Real-time context gathered for thought generation.
#[derive(Clone, Debug)]
pub struct RealTimeContext {
    /// Seconds since the Unix epoch.
    pub timestamp: i64,
    pub market_trends: Vec<String>,
    pub current_events: Vec<String>,
    pub technological_developments: Vec<String>,
    pub user_interactions: Vec<String>,
    pub environmental_data: Vec<(String, String)>,
    pub mission_progress: Vec<String>,
}

/// What a cell tells the model about itself when asking for a thought.
#[derive(Clone, Debug)]
pub struct CellContext {
    pub current_focus: String,
    pub active_research_topics: Vec<String>,
    pub recent_discoveries: Vec<String>,
    pub collaboration_history: Vec<String>,
    /// Named metrics, in thousandths.
    pub performance_metrics: Vec<(String, i64)>,
    pub evolution_stage: u32,
    pub energy_level: i64,
    pub dimensional_position: DimensionalPosition,
    pub dopamine: i64,
}

/// Aggregate figures of a colony.
#[derive(Clone, Copy, Debug, PartialEq, Eq, Structural)]
pub struct ColonyStatistics {
    pub total_cells: u32,
    pub total_thoughts: u32,
    pub total_plans: u32,
    pub successful_plans: u32,
    pub failed_plans: u32,
    pub average_cell_energy: i64,
    pub highest_evolution_stage: u32,
    pub total_cycles: u32,
}

/// Phase of a simulation cycle.
#[derive(Clone, Copy, Debug, PartialEq, Eq, Structural)]
pub enum ProcessingPhase {
    ThoughtGeneration,
    PlanCreation,
    Evolution,
    MemoryCompression,
    Active,
}

} // verus!
