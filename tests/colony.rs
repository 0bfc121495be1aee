use cell_colony::cell::{Cell, MAX_MEMORY_SIZE};
use cell_colony::colony::Colony;
use cell_colony::dimensional::calculate_dimensional_complement;
use cell_colony::reproduction::{offspring_position, ReproductionDraw};
use cell_colony::scheduling::{
    is_transient_error, next_phase, sub_batch_attempt_step, sub_batch_size, thought_attempt_step,
    AttemptOutcome, BatchCounters, RetryAction, RetryState,
};
use cell_colony::state::MAX_GRID_CELLS;
use cell_colony::types::{Coordinates, DimensionalPosition, ProcessingPhase, Thought, SCALE};

fn thought(id: u128, content: &str, relevance: i64) -> Thought {
    Thought {
        id,
        content: content.to_string(),
        timestamp: 0,
        relevance_score: relevance,
        context_tags: Vec::new(),
        real_time_factors: Vec::new(),
        confidence_score: 900,
        ascii_visualization: None,
        referenced_thoughts: Vec::new(),
    }
}

fn pos(v: [i64; 6]) -> DimensionalPosition {
    DimensionalPosition {
        emergence: v[0],
        coherence: v[1],
        resilience: v[2],
        intelligence: v[3],
        efficiency: v[4],
        integration: v[5],
    }
}

fn draw(child_id: u128, chance: u64) -> ReproductionDraw {
    ReproductionDraw {
        child_id,
        chance,
        dx: 999,
        dy: 0,
        dz: 500,
        heat: 999,
        emergence: 999,
        coherence: 0,
        resilience: 500,
        intelligence: 999,
        efficiency: 0,
        integration: 500,
    }
}

#[test]
fn distant_cells_form_separate_clusters() {
    let mut colony = Colony::new("test");
    colony.add_cell_with_id(1, Coordinates::at(0, 0, 0));
    colony.add_cell_with_id(2, Coordinates::at(10_000, 0, 0));
    colony.add_cell_with_id(3, Coordinates::at(0, 10_000, 0));
    assert_eq!(colony.get_cluster_count(), 3);
    for c in &colony.cells {
        assert!(c.neighbors.is_empty());
    }
}

#[test]
fn close_cells_form_one_cluster() {
    let mut colony = Colony::new("test");
    let a = colony.add_cell_with_id(1, Coordinates::at(0, 0, 0));
    let b = colony.add_cell_with_id(2, Coordinates::at(1_000, 0, 0));
    assert_eq!(colony.cells[1].neighbors, vec![a]);
    assert_eq!(colony.cells[0].neighbors, vec![b]);
    colony.update_neighbors(a);
    assert_eq!(colony.cells[0].neighbors, vec![b]);
    assert_eq!(colony.get_cluster_count(), 1);
}

#[test]
fn neighbor_threshold_is_strict() {
    let mut colony = Colony::new("m");
    colony.add_cell_with_id(1, Coordinates::at(0, 0, 0));
    colony.add_cell_with_id(2, Coordinates::at(2_000, 0, 0));
    assert!(colony.cells[1].neighbors.is_empty());
    colony.add_cell_with_id(3, Coordinates::at(1_999, 0, 0));
    assert_eq!(colony.cells[2].neighbors, vec![1, 2]);
    assert_eq!(colony.cells[0].neighbors, vec![3]);
    assert_eq!(colony.cells[1].neighbors, vec![3]);
}

#[test]
fn cluster_count_extremes() {
    let mut colony = Colony::new("m");
    for k in 0..4 {
        colony.add_cell_with_id(k + 1, Coordinates::at(100 * k as i64, 0, 0));
    }
    assert_eq!(colony.get_cluster_count(), 1);
    let mut apart = Colony::new("m");
    for k in 0..5 {
        apart.add_cell_with_id(k + 1, Coordinates::at(5_000 * k as i64, 0, 0));
    }
    assert_eq!(apart.get_cluster_count(), 5);
    assert_eq!(Colony::new("m").get_cluster_count(), 0);
}

#[test]
fn chain_of_links_is_one_cluster() {
    let mut colony = Colony::new("m");
    for k in 0..4 {
        colony.add_cell_with_id(k + 1, Coordinates::at(1_500 * k as i64, 0, 0));
    }
    assert_eq!(colony.get_cluster_count(), 1);
}

#[test]
fn replacing_an_id_keeps_the_count() {
    let mut colony = Colony::new("m");
    colony.add_cell_with_id(7, Coordinates::at(0, 0, 0));
    colony.cells[0].energy = 5;
    colony.add_cell_with_id(7, Coordinates::at(1, 1, 1));
    assert_eq!(colony.cells.len(), 1);
    assert_eq!(colony.cells[0].energy, 100 * SCALE);
    assert_eq!(colony.cells[0].position.x, 1);
}

#[test]
fn reproduction_spawns_one_child_near_parent() {
    let mut colony = Colony::new("m");
    colony.add_cell_with_id(1, Coordinates::at(5_000, -3_000, 250));
    colony.cells[0].energy = 95 * SCALE;
    colony.reproduce_with(&vec![draw(42, 50)]);
    assert_eq!(colony.cells.len(), 2);
    let child = &colony.cells[1];
    assert_eq!(child.id, 42);
    assert_eq!(child.position.x, 5_000 + 499);
    assert_eq!(child.position.y, -3_000 - 500);
    assert_eq!(child.position.z, 250);
    for (c, p) in [(child.position.x, 5_000), (child.position.y, -3_000), (child.position.z, 250)] {
        assert!((c - p).abs() < SCALE);
    }
    assert_eq!(child.neighbors, vec![1]);
    assert_eq!(colony.cells[0].neighbors, vec![42]);
}

#[test]
fn reproduction_needs_energy_and_luck() {
    let mut colony = Colony::new("m");
    colony.add_cell_with_id(1, Coordinates::at(0, 0, 0));
    colony.cells[0].energy = 90 * SCALE;
    colony.reproduce_with(&vec![draw(42, 0)]);
    assert_eq!(colony.cells.len(), 1);
    colony.cells[0].energy = 95 * SCALE;
    colony.reproduce_with(&vec![draw(42, 100)]);
    assert_eq!(colony.cells.len(), 1);
}

#[test]
fn reproduction_skips_taken_ids() {
    let mut colony = Colony::new("m");
    colony.add_cell_with_id(1, Coordinates::at(0, 0, 0));
    colony.add_cell_with_id(2, Coordinates::at(9_000, 0, 0));
    colony.cells[0].energy = 95 * SCALE;
    colony.cells[1].energy = 95 * SCALE;
    colony.reproduce_with(&vec![draw(2, 10), draw(7, 10)]);
    assert_eq!(colony.cells.len(), 3);
    assert_eq!(colony.cells[0].energy, 95 * SCALE);
    assert_eq!(colony.cells[2].id, 7);
    assert_eq!(colony.cells[2].position.x, 9_499);
}

#[test]
fn offspring_scores_are_clamped() {
    let mut parent = Coordinates::at(0, 0, 0);
    parent.heat = 1_000;
    parent.emergence_score = 99_000;
    parent.coherence_score = -98_000;
    parent.intelligence_score = 100_000;
    let c = offspring_position(&parent, &draw(1, 0));
    assert_eq!(c.heat, 1_000);
    assert_eq!(c.emergence_score, 100_000);
    assert_eq!(c.coherence_score, -100_000);
    assert_eq!(c.resilience_score, 0);
    assert_eq!(c.intelligence_score, 100_000);
    assert_eq!(c.efficiency_score, -5_000);
    for s in [c.emergence_score, c.coherence_score, c.resilience_score, c.intelligence_score, c.efficiency_score, c.integration_score] {
        assert!((-100_000..=100_000).contains(&s));
    }
    parent.heat = 500;
    let d = offspring_position(&parent, &draw(1, 0));
    assert_eq!(d.heat, 549);
}

#[test]
fn random_reproduction_keeps_coordinates_valid() {
    let mut colony = Colony::new("m");
    for k in 0..20 {
        colony.add_cell_with_id(k + 1, Coordinates::at(0, 0, 3_000 * k as i64));
        colony.cells[k as usize].energy = 100 * SCALE;
    }
    for _ in 0..5 {
        colony.handle_cell_reproduction();
    }
    assert!(colony.cells.len() >= 20);
    for c in &colony.cells {
        assert!((0..=SCALE).contains(&c.position.heat));
    }
}

#[test]
fn compression_removes_first_half() {
    let mut cell = Cell::with_id(1, Coordinates::at(0, 0, 0));
    let big = "x".repeat(MAX_MEMORY_SIZE / 4 + 1);
    for k in 0..5 {
        cell.thoughts.push(thought(k, &big, 500));
    }
    assert!(cell.needs_compression());
    let old = cell.check_and_compress_memories().unwrap();
    assert_eq!(old.len(), 2);
    cell.record_compressed_memory("summary".to_string());
    assert_eq!(cell.thoughts.len(), 3);
    assert_eq!(cell.thoughts[0].id, 2);
    assert_eq!(cell.compressed_memories, vec!["summary".to_string()]);
}

#[test]
fn small_queue_needs_no_compression() {
    let mut cell = Cell::with_id(1, Coordinates::at(0, 0, 0));
    cell.thoughts.push(thought(1, &"y".repeat(MAX_MEMORY_SIZE), 500));
    assert!(!cell.needs_compression());
    assert!(cell.check_and_compress_memories().is_none());
    assert_eq!(cell.thoughts.len(), 1);
    cell.thoughts.push(thought(2, "z", 500));
    assert!(cell.needs_compression());
    assert_eq!(cell.check_and_compress_memories().unwrap(), vec!["y".repeat(MAX_MEMORY_SIZE)]);
    assert_eq!(cell.thoughts[0].content, "z");
}

#[test]
fn complement_is_symmetric_and_bounded() {
    let a = pos([100_000, -100_000, 50_000, 0, 20_000, -30_000]);
    let b = pos([-100_000, 100_000, -50_000, 0, 10_000, 30_000]);
    assert_eq!(calculate_dimensional_complement(&a, &b), 975);
    assert_eq!(calculate_dimensional_complement(&b, &a), 975);
    let c = pos([100_000; 6]);
    assert_eq!(calculate_dimensional_complement(&c, &c), 0);
    let z = pos([0; 6]);
    assert_eq!(calculate_dimensional_complement(&z, &z), SCALE);
}

#[test]
fn labeled_lines_set_axes() {
    let mut cell = Cell::with_id(1, Coordinates::at(0, 0, 0));
    let text = "Intro\n  - NETWORK_COHERENCE: 42.5 \n- GOAL_ALIGNMENT: -250\n- UNKNOWN_AXIS: 7\n- RESOURCE_EFFICIENCY: oops\n- TEMPORAL_RESILIENCE: .25";
    cell.update_dimensions_from_text(text);
    let p = cell.dimensional_position;
    assert_eq!(p.coherence, 42_500);
    assert_eq!(p.intelligence, -100_000);
    assert_eq!(p.efficiency, 50_000);
    assert_eq!(p.resilience, 250);
    assert_eq!(p.emergence, 50_000);
    assert_eq!(p.integration, 50_000);
}

#[test]
fn batch_lines_default_and_last_wins() {
    let mut cell = Cell::with_id(1, Coordinates::at(0, 0, 0));
    let text = "- EMERGENT_INTELLIGENCE: 10\nDOPAMINE: 0.9\n- EMERGENT_INTELLIGENCE: 20\n- DIMENSIONAL_INTEGRATION: x";
    cell.merge_batch_thought(9, text, 700, vec!["f".to_string()], 12);
    assert_eq!(cell.dimensional_position.emergence, 20_000);
    assert_eq!(cell.dimensional_position.integration, 0);
    assert_eq!(cell.dopamine, 900);
    assert_eq!(cell.thoughts.len(), 1);
    assert_eq!(cell.thoughts[0].real_time_factors, vec!["f".to_string()]);
    assert_eq!(cell.thoughts[0].context_tags, vec!["stage_1".to_string(), "energy_100".to_string(), "active".to_string()]);
}

#[test]
fn batch_lines_are_clamped() {
    let mut cell = Cell::with_id(1, Coordinates::at(0, 0, 0));
    cell.merge_batch_thought(9, "- TEMPORAL_RESILIENCE: 500\n- GOAL_ALIGNMENT: -250.5", 700, Vec::new(), 12);
    assert_eq!(cell.dimensional_position.resilience, 100_000);
    assert_eq!(cell.dimensional_position.intelligence, -100_000);
}

#[test]
fn generated_thought_is_filtered_and_tagged() {
    let mut cell = Cell::with_id(1, Coordinates::at(0, 0, 0));
    cell.energy = 59_000;
    let ctx = cell.cell_context();
    cell.record_generated_thought(5, "quantum leaps and quantumquantum", 800, vec!["trend".to_string()], &ctx, 3);
    let t = &cell.thoughts[0];
    assert_eq!(t.content, "advanced leaps and advancedadvanced");
    assert_eq!(t.context_tags[0], "stage_1");
    assert_eq!(t.context_tags[1], "energy_40");
    assert_eq!(t.real_time_factors[0], "quantum leaps and quantumquantum");
    assert_eq!(t.real_time_factors[1], "Update system based on thought");
    assert_eq!(t.real_time_factors.len(), 2);
    assert!((800..1000).contains(&t.confidence_score));
}

#[test]
fn evaluation_deltas_clamp() {
    let mut cell = Cell::with_id(1, Coordinates::at(0, 0, 0));
    cell.apply_dimensional_evaluation(5_000, 900);
    assert_eq!(cell.energy, 100 * SCALE);
    assert_eq!(cell.dopamine, 900);
    cell.apply_dimensional_evaluation(-30_000, -2_000);
    assert_eq!(cell.energy, 70 * SCALE);
    assert_eq!(cell.dopamine, 0);
}

#[test]
fn retry_discipline() {
    let mut s = RetryState::start();
    let mut c = BatchCounters::new();
    assert_eq!(thought_attempt_step(&mut s, &mut c, AttemptOutcome::Failed { transient: true }), RetryAction::RetryAfter(1));
    assert_eq!(thought_attempt_step(&mut s, &mut c, AttemptOutcome::Failed { transient: true }), RetryAction::RetryAfter(2));
    assert_eq!(thought_attempt_step(&mut s, &mut c, AttemptOutcome::Failed { transient: true }), RetryAction::Done);
    assert_eq!(c.errors, 1);
    let mut s = RetryState::start();
    let mut c = BatchCounters::new();
    assert_eq!(thought_attempt_step(&mut s, &mut c, AttemptOutcome::TimedOut), RetryAction::Done);
    assert_eq!(c.timeouts, 1);
    assert_eq!(thought_attempt_step(&mut s, &mut c, AttemptOutcome::Failed { transient: false }), RetryAction::Done);
    assert_eq!(c.errors, 1);
    assert_eq!(thought_attempt_step(&mut s, &mut c, AttemptOutcome::Succeeded), RetryAction::Done);
    assert_eq!(c.successes, 1);
    let mut s = RetryState::start();
    assert_eq!(sub_batch_attempt_step(&mut s, false), RetryAction::RetryAfter(1));
    assert_eq!(sub_batch_attempt_step(&mut s, false), RetryAction::RetryAfter(2));
    assert_eq!(sub_batch_attempt_step(&mut s, false), RetryAction::Done);
    assert!(is_transient_error("io: unexpected EOF during chunk size line (x)"));
    assert!(!is_transient_error("timeout"));
}

#[test]
fn sub_batch_sizes() {
    assert_eq!(sub_batch_size(0), 3);
    assert_eq!(sub_batch_size(45), 5);
    assert_eq!(sub_batch_size(44), 4);
    assert_eq!(sub_batch_size(1_000), 12);
}

#[test]
fn cycle_phases() {
    assert_eq!(next_phase(ProcessingPhase::ThoughtGeneration, 1), ProcessingPhase::PlanCreation);
    assert_eq!(next_phase(ProcessingPhase::Evolution, 2), ProcessingPhase::MemoryCompression);
    assert_eq!(next_phase(ProcessingPhase::Evolution, 3), ProcessingPhase::Active);
}

#[test]
fn snapshot_round_trip() {
    let mut colony = Colony::new("explore");
    colony.add_cell_with_id(1, Coordinates::at(1_000, 2_000, 500));
    colony.add_cell_with_id(2, Coordinates::at(-4_000, 0, 0));
    colony.cells[0].energy = 42_500;
    colony.cells[0].dopamine = 123;
    colony.cells[0].dimensional_position = pos([1, -2, 3, -4, 5, -6]);
    colony.cells[1].thoughts.push(thought(77, "remember", 640));
    let state = colony.save_state(99);
    assert_eq!(state.energy_grid.size, 6);
    assert_eq!(state.energy_grid.grid.len(), 216);
    assert_eq!(state.energy_grid.cell_positions[0], (1, 2, 4, 1));
    assert_eq!(state.energy_grid.grid[1 * 36 + 4 * 6 + 2], 42_500);
    let mut fresh = Colony::new("explore");
    fresh.load_state(&state);
    assert_eq!(fresh.mission, "explore");
    assert_eq!(fresh.cells.len(), 2);
    assert_eq!(fresh.cells[0].energy, 42_500);
    assert_eq!(fresh.cells[0].dopamine, 123);
    assert_eq!(fresh.cells[0].dimensional_position, pos([1, -2, 3, -4, 5, -6]));
    assert_eq!(fresh.cells[1].thoughts[0].content, "remember");
    assert_eq!(fresh.cells[1].thoughts[0].relevance_score, 640);
    assert!(MAX_GRID_CELLS > 216);
}

#[test]
fn oversized_grid_keeps_cells() {
    let mut colony = Colony::new("far");
    colony.add_cell_with_id(1, Coordinates::at(1_000_000, 0, 0));
    let state = colony.save_state(0);
    assert_eq!(state.cells.len(), 1);
    assert_eq!(state.cells[0].x, 1_000_000);
    assert_eq!(state.energy_grid.size, 0);
    assert!(state.energy_grid.grid.is_empty());
    assert!(colony.energy_grid().is_none());
}

#[test]
fn evolution_regenerates_and_audits() {
    let mut colony = Colony::new("m");
    colony.add_cell_with_id(1, Coordinates::at(3_000, 0, 0));
    colony.cells[0].energy = 40_000;
    colony.evolve_cells();
    assert_eq!(colony.cells[0].energy, 40_100 + 10_000);
    assert_eq!(colony.cells[0].stability, 810);
    assert_eq!(colony.get_average_energy(), 50_100);
    assert_eq!(colony.get_mutation_rate(), 0);
    assert_eq!(colony.get_total_thoughts(), 0);
    assert_eq!(colony.get_total_plans(), 0);
    assert_eq!(colony.get_max_depth(), 0);
}
