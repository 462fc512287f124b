use millions_server::perf_budget::ServerPerfScenario;
use millions_server::simulation_scale::{SimulationScaleScenario, SimulationScaleScenarioId, run_simulation_scale_scenario, simulation_scale_scenarios};

#[test]
fn scale_scenario_catalog_covers_required_counts() {
    let counts = simulation_scale_scenarios()
        .iter()
        .map(|scenario| (scenario.id.as_str(), scenario.entity_count))
        .collect::<Vec<_>>();

    assert_eq!(
        counts,
        vec![
            ("sim_1k_single_client", 1_000),
            ("sim_5k_single_client", 5_000),
            ("sim_10k_single_client", 10_000),
        ]
    );
}

#[test]
fn simulation_scale_run_is_deterministic_for_10k() {
    let scenario = simulation_scale_scenarios()[2];
    let first = run_simulation_scale_scenario(scenario);
    let second = run_simulation_scale_scenario(scenario);

    assert_eq!(first, second);
    assert_eq!(
        first.scenario_id,
        SimulationScaleScenarioId::Sim10kSingleClient
    );
    assert_eq!(first.entity_count, 10_000);
    assert_eq!(first.snapshot_entities, 10_000);
    assert_eq!(first.final_tick, scenario.tick_count);
    assert!(first.occupied_cells > 0);
    assert!(first.snapshot_bytes > 10_000);
}

#[test]
fn simulation_scale_small_run_counts_cells_and_bytes() {
    let scenario = SimulationScaleScenario {
        id: SimulationScaleScenarioId::Sim1kSingleClient,
        entity_count: 4,
        tick_count: 1,
        cell_size_mm: 2_000,
        world_width_entities: 2,
    };
    let run = run_simulation_scale_scenario(scenario);
    // after one tick the entities sit at (-20,-20), (990,-20), (0,980) and (1010,980)
    assert_eq!(run.occupied_cells, 3);
    assert_eq!(run.final_tick, 1);
    assert_eq!(run.snapshot_bytes, 24 + 4 * 36);
    assert_eq!(scenario.budget_scenario(), ServerPerfScenario::Sim1kSingleClient);

    let idle = SimulationScaleScenario { tick_count: 0, ..scenario };
    assert_eq!(run_simulation_scale_scenario(idle).occupied_cells, 0);
}
