use cell_colony::cell::Cell;
use cell_colony::colony::Colony;
use cell_colony::interaction::{
    calculate_interaction_effects, process_interaction_effects, should_generate_thought,
    EnhancedCellState, InteractionEffect,
};
use cell_colony::planning::{plan_score, PlanAnalysis, MAX_THOUGHTS_FOR_PLAN};
use cell_colony::types::{Coordinates, DimensionalPosition, Plan, PlanNode, PlanNodeStatus, PlanStatus, RealTimeContext, Thought, SCALE};

fn thought(id: u128, content: &str, relevance: i64) -> Thought {
    Thought {
        id,
        content: content.to_string(),
        timestamp: 0,
        relevance_score: relevance,
        context_tags: Vec::new(),
        real_time_factors: Vec::new(),
        confidence_score: 900,
        ascii_visualization: None,
        referenced_thoughts: Vec::new(),
    }
}

fn node(completion: i64) -> PlanNode {
    PlanNode {
        id: 0,
        title: "t".to_string(),
        description: "d".to_string(),
        dependencies: Vec::new(),
        estimated_completion: completion,
        status: PlanNodeStatus::Pending,
    }
}

fn plan(id: u128, score: i64, status: PlanStatus, summary: &str) -> Plan {
    Plan {
        id,
        thoughts: Vec::new(),
        nodes: Vec::new(),
        summary: summary.to_string(),
        score,
        participating_cells: Vec::new(),
        created_at: 0,
        status,
    }
}

fn colony_of_three() -> Colony {
    let mut colony = Colony::new("m");
    colony.add_cell_with_id(1, Coordinates::at(0, 0, 0));
    colony.add_cell_with_id(2, Coordinates::at(1_000, 0, 0));
    colony.add_cell_with_id(3, Coordinates::at(0, 1_000, 0));
    colony
}

#[test]
fn plan_sources_own_thoughts_first_then_best_complement() {
    let mut colony = colony_of_three();
    colony.cells[2].thoughts.push(thought(31, "c-low", 100));
    colony.cells[2].thoughts.push(thought(32, "c-high", 900));
    colony.cells[1].thoughts.push(thought(21, "b", 500));
    colony.cells[2].dimensional_position.emergence = -50_000;
    colony.cells[0].thoughts.push(thought(11, "own", 10));
    let ranked = colony.ranked_neighbors(2);
    assert_eq!(ranked.len(), 2);
    let sources = colony.plan_thought_sources(2);
    assert_eq!(sources[0], (2, 0));
    assert_eq!(sources[1], (2, 1));
    assert_eq!(sources.len(), 4);
    let sources_a = colony.plan_thought_sources(1);
    assert_eq!(sources_a, vec![(1, 0), (2, 1), (2, 0), (0, 0)]);
}

#[test]
fn plan_is_scored_shared_and_summarized() {
    let mut colony = colony_of_three();
    colony.cells[2].thoughts.push(thought(31, "first line\nsecond", 300));
    colony.cells[2].thoughts.push(thought(32, "other\r\nmore", 600));
    let sources = colony.plan_thought_sources(2);
    let p = colony.make_plan(2, &sources, 500, vec![node(900), node(100)], String::new(), 7);
    assert_eq!(p.score, 450);
    assert_eq!(p.summary, "first line | other");
    assert_eq!(p.participating_cells, vec![3, 1, 2]);
    assert_eq!(p.status, PlanStatus::Proposed);
    colony.assign_plan(&p);
    for c in &colony.cells {
        assert_eq!(c.current_plan.as_ref().unwrap().id, 500);
    }
    colony.update_leaderboard();
    assert_eq!(colony.leaderboard()[2], (3, 4, 2));
    assert_eq!(colony.leaderboard()[0], (1, 2, 2));
    assert_eq!(colony.get_total_plans(), 3);
    colony.audit_dimensional_positions();
    assert_eq!(colony.cells[0].dimensional_position.emergence, 50_000);
}

#[test]
fn audit_rewards_fully_executed_plans() {
    let mut colony = colony_of_three();
    let mut p = plan(9, 0, PlanStatus::Proposed, "s");
    p.nodes = vec![node(900), node(850)];
    colony.cells[0].current_plan = Some(p);
    colony.cells[0].dimensional_position.coherence = 99_700;
    colony.cells[0].dimensional_position.resilience = -5_000;
    colony.cells[0].dimensional_position.emergence = 50_700;
    colony.audit_dimensional_positions();
    let d = colony.cells[0].dimensional_position;
    assert_eq!(d.emergence, 51_700);
    assert_eq!(d.coherence, 99_700);
    assert_eq!(d.resilience, 0);
    assert_eq!(colony.cells[1].dimensional_position.emergence, 50_000);
}

#[test]
fn plan_score_of_empty_is_zero() {
    assert_eq!(plan_score(&Vec::new()), 0);
    assert_eq!(plan_score(&vec![thought(1, "a", 801), thought(2, "b", 200)]), 500);
    assert_eq!(MAX_THOUGHTS_FOR_PLAN, 42);
}

#[test]
fn plan_sources_are_capped() {
    let mut colony = colony_of_three();
    for k in 0..50 {
        colony.cells[0].thoughts.push(thought(k, "t", 500));
    }
    let s = colony.plan_thought_sources(0);
    assert_eq!(s.len(), MAX_THOUGHTS_FOR_PLAN);
    assert_eq!(s[41], (0, 41));
}

#[test]
fn plan_analysis_counts_and_best() {
    let plans = vec![
        plan(1, 400, PlanStatus::Completed, "a"),
        plan(2, 900, PlanStatus::Failed, "b"),
        plan(3, 900, PlanStatus::Completed, "c"),
    ];
    let a = PlanAnalysis::analyze_plans(&plans, "7", 11);
    assert_eq!(a.total_plans, 3);
    assert_eq!(a.successful_plans, 2);
    assert_eq!(a.failed_plans, 1);
    assert_eq!(a.average_score, 733);
    assert_eq!(a.best_plan_id, Some(3));
    assert_eq!(a.best_plan_summary, "c");
    let e = PlanAnalysis::analyze_plans(&Vec::new(), "8", 0);
    assert_eq!(e.best_plan_id, None);
}

#[test]
fn focus_follows_matching_context() {
    let mut cell = Cell::with_id(1, Coordinates::at(0, 0, 0));
    cell.current_plan = Some(plan(4, 0, PlanStatus::Proposed, "Scale Solar Grids"));
    let ctx = RealTimeContext {
        timestamp: 0,
        market_trends: vec!["SOLAR".to_string(), "wind".to_string()],
        current_events: Vec::new(),
        technological_developments: vec!["Grids".to_string()],
        user_interactions: Vec::new(),
        environmental_data: Vec::new(),
        mission_progress: Vec::new(),
    };
    cell.update_focus_based_on_context(&ctx);
    assert_eq!(cell.context_alignment_score, 500);
    assert_eq!(cell.energy, 100_000);
    assert_eq!(cell.mission_alignment_score, 975);
    assert_eq!(cell.dopamine, 500);
    assert!(cell.last_context_update.is_some());
    let none = RealTimeContext { market_trends: Vec::new(), technological_developments: Vec::new(), ..ctx };
    cell.update_focus_based_on_context(&none);
    assert_eq!(cell.context_alignment_score, 400);
    assert_eq!(cell.energy, 100_000 - 700);
    assert_eq!(cell.dimensional_position.emergence, 48_000);
    assert_eq!(cell.dimensional_position.intelligence, 47_000);
    assert_eq!(cell.dimensional_position.resilience, 50_000);
}

#[test]
fn interaction_effects_follow_thresholds() {
    let mut s = EnhancedCellState::new();
    s.energy = 20_000;
    s.activity_level = 800;
    let e = calculate_interaction_effects(&s, Some(90_000), Some(900));
    assert_eq!(
        e,
        vec![InteractionEffect::EnergyBoost(3_500), InteractionEffect::SynchronizationBonus(1_800)]
    );
    s.energy = 60_000;
    let f = calculate_interaction_effects(&s, None, Some(500));
    assert_eq!(f, vec![InteractionEffect::SpawnConditionsMet]);
    let mut cell = Cell::with_id(1, Coordinates::at(0, 0, 0));
    process_interaction_effects(&mut cell, &mut s, &f);
    assert_eq!(cell.energy, 70_000);
    assert_eq!(s.energy, 42_000);
    assert!(should_generate_thought(&s, SCALE, 999));
    assert!(!should_generate_thought(&s, 500, 600));
}

#[test]
fn balance_ranks_best_balanced_first() {
    let mut colony = colony_of_three();
    colony.cells[0].dimensional_position = DimensionalPosition {
        emergence: 60_000,
        coherence: 0,
        resilience: 0,
        intelligence: 0,
        efficiency: 0,
        integration: 0,
    };
    colony.cells[1].dimensional_position.emergence = -50_000;
    let ids = vec![1, 2, 3, 99];
    let ranked = colony.rank_by_balance(&ids);
    assert_eq!(ranked.iter().map(|e| e.1).collect::<Vec<_>>(), vec![0, 1, 2]);
    let (avg, imbalance) = colony.analyze_dimensional_balance(&ids);
    assert_eq!(avg.emergence, 20_000);
    assert_eq!(avg.coherence, 33_333);
    assert_eq!(imbalance, 31_110);
    colony.nudge_cell(2, 0);
    assert_eq!(colony.cells[1].dimensional_position.resilience, 49_900);
}
