use millions_server::movement_scale::{FLOW_FIELD_CACHE_ENTRY_LIMIT, FLOW_FIELD_COLLISION_SAMPLE_COUNT, FlowFieldBounds, FlowFieldCache, FlowFieldCacheStats, FlowFieldError, FlowFieldMap, FlowFieldRequest, FlowFieldStep, FlowFieldStepResult, MAPDATA_V0_LOCAL_FIXTURE_CHECKSUM, MovementScaleScenarioId, movement_scale_scenarios, run_movement_scale_scenario};
use millions_server::simulation::{MovementDelta, SpatialCell};

fn small_flow_bounds() -> FlowFieldBounds {
    FlowFieldBounds {
        min_x: 0,
        min_y: 0,
        max_x: 4,
        max_y: 4,
    }
}

#[test]
fn movement_scenario_catalog_covers_nav_01_option_families() {
    let families = movement_scale_scenarios()
        .iter()
        .map(|scenario| scenario.option_family.as_str())
        .collect::<Vec<_>>();

    assert_eq!(
        families,
        vec![
            "direct_target_steering",
            "grid_corridor_pathing",
            "flow_field_objective",
            "local_avoidance_layer",
            "formation_anchor",
        ]
    );
}

#[test]
fn movement_scenario_catalog_includes_1k_5k_and_10k_inputs() {
    let counts = movement_scale_scenarios()
        .iter()
        .map(|scenario| scenario.entity_count)
        .collect::<Vec<_>>();

    assert!(counts.contains(&1_000));
    assert!(counts.contains(&5_000));
    assert!(counts.contains(&10_000));
}

#[test]
fn flow_field_builds_deterministic_costs_around_blockers() {
    let flow = FlowFieldMap::build(
        small_flow_bounds(),
        SpatialCell { x: 4, y: 4 },
        vec![SpatialCell { x: 2, y: 4 }, SpatialCell { x: 3, y: 4 }],
    )
    .expect("valid flow field");

    assert_eq!(flow.goal_cell(), SpatialCell { x: 4, y: 4 });
    assert_eq!(flow.blocked_cell_count(), 2);
    assert_eq!(flow.cost_at(SpatialCell { x: 4, y: 4 }), Some(0));
    assert_eq!(flow.cost_at(SpatialCell { x: 4, y: 3 }), Some(1));
    assert_eq!(flow.cost_at(SpatialCell { x: 2, y: 4 }), None);
    assert!(flow.visited_cell_count() > 10);
}

#[test]
fn flow_field_rejects_invalid_bounds_and_blocked_goal() {
    assert_eq!(
        FlowFieldMap::build(
            FlowFieldBounds {
                min_x: 4,
                min_y: 0,
                max_x: 0,
                max_y: 4,
            },
            SpatialCell { x: 0, y: 0 },
            Vec::new(),
        )
        .unwrap_err(),
        FlowFieldError::InvalidBounds
    );

    assert_eq!(
        FlowFieldMap::build(
            small_flow_bounds(),
            SpatialCell { x: 4, y: 4 },
            vec![SpatialCell { x: 4, y: 4 }],
        )
        .unwrap_err(),
        FlowFieldError::GoalBlocked
    );
}

#[test]
fn flow_field_step_returns_next_cell_blocked_and_unreachable_results() {
    let flow = FlowFieldMap::build(
        small_flow_bounds(),
        SpatialCell { x: 4, y: 4 },
        vec![SpatialCell { x: 2, y: 2 }],
    )
    .expect("valid flow field");

    assert_eq!(
        flow.step_from(SpatialCell { x: 4, y: 4 }, 1_000),
        FlowFieldStep {
            from_cell: SpatialCell { x: 4, y: 4 },
            next_cell: None,
            movement_delta: MovementDelta { dx_mm: 0, dy_mm: 0 },
            cost: Some(0),
            result: FlowFieldStepResult::AtGoal,
        }
    );
    assert_eq!(
        flow.step_from(SpatialCell { x: 3, y: 4 }, 1_000),
        FlowFieldStep {
            from_cell: SpatialCell { x: 3, y: 4 },
            next_cell: Some(SpatialCell { x: 4, y: 4 }),
            movement_delta: MovementDelta {
                dx_mm: 250,
                dy_mm: 0
            },
            cost: Some(1),
            result: FlowFieldStepResult::NextCell,
        }
    );
    assert_eq!(
        flow.step_from(SpatialCell { x: 2, y: 2 }, 1_000).result,
        FlowFieldStepResult::Blocked
    );
    assert_eq!(
        flow.step_from(SpatialCell { x: 8, y: 8 }, 1_000).result,
        FlowFieldStepResult::Unreachable
    );
}

#[test]
fn flow_field_cache_reuses_identical_requests_and_tracks_hits() {
    let mut cache = FlowFieldCache::new();
    let request = FlowFieldRequest {
        bounds: small_flow_bounds(),
        goal_cell: SpatialCell { x: 4, y: 4 },
        blocked_cells: vec![SpatialCell { x: 2, y: 2 }],
        map_checksum: MAPDATA_V0_LOCAL_FIXTURE_CHECKSUM,
    };

    let first_visited = cache
        .get_or_build(request.clone())
        .expect("valid flow field")
        .visited_cell_count();
    let second_visited = cache
        .get_or_build(request)
        .expect("cached flow field")
        .visited_cell_count();

    assert_eq!(first_visited, second_visited);
    assert_eq!(cache.len(), 1);
    assert_eq!(
        cache.stats(),
        FlowFieldCacheStats {
            request_count: 2,
            build_count: 1,
            hit_count: 1,
            eviction_count: 0,
            invalidated_entry_count: 0,
        }
    );
}

#[test]
fn flow_field_cache_misses_when_blockers_change_and_invalidates_by_checksum() {
    let mut cache = FlowFieldCache::new();
    let first = FlowFieldRequest {
        bounds: small_flow_bounds(),
        goal_cell: SpatialCell { x: 4, y: 4 },
        blocked_cells: vec![SpatialCell { x: 2, y: 2 }],
        map_checksum: MAPDATA_V0_LOCAL_FIXTURE_CHECKSUM,
    };
    let second = FlowFieldRequest {
        blocked_cells: vec![SpatialCell { x: 2, y: 3 }],
        ..first.clone()
    };

    cache.get_or_build(first).expect("valid flow field");
    cache.get_or_build(second).expect("valid changed field");

    assert_eq!(cache.len(), 2);
    assert_eq!(cache.stats().build_count, 2);
    assert_eq!(cache.stats().hit_count, 0);
    assert_eq!(
        cache.invalidate_map_checksum(MAPDATA_V0_LOCAL_FIXTURE_CHECKSUM),
        2
    );
    assert!(cache.is_empty());
    assert_eq!(cache.stats().invalidated_entry_count, 2);
    assert_eq!(cache.stats().eviction_count, 0);
}

#[test]
fn flow_field_cache_evicts_deterministically_at_entry_limit() {
    let mut cache = FlowFieldCache::new();
    let bounds = FlowFieldBounds {
        min_x: 0,
        min_y: 0,
        max_x: FLOW_FIELD_CACHE_ENTRY_LIMIT as i32 + 4,
        max_y: 0,
    };

    for goal_x in 0..(FLOW_FIELD_CACHE_ENTRY_LIMIT + 3) {
        cache
            .get_or_build(FlowFieldRequest {
                bounds,
                goal_cell: SpatialCell {
                    x: goal_x as i32,
                    y: 0,
                },
                blocked_cells: Vec::new(),
                map_checksum: MAPDATA_V0_LOCAL_FIXTURE_CHECKSUM,
            })
            .expect("goal stays inside valid bounds");
    }

    let stats = cache.stats();
    assert_eq!(cache.len(), FLOW_FIELD_CACHE_ENTRY_LIMIT);
    assert_eq!(
        stats.request_count,
        (FLOW_FIELD_CACHE_ENTRY_LIMIT + 3) as u64
    );
    assert_eq!(stats.build_count, (FLOW_FIELD_CACHE_ENTRY_LIMIT + 3) as u64);
    assert_eq!(stats.hit_count, 0);
    assert_eq!(stats.eviction_count, 3);
    assert!(!cache.contains_request(&FlowFieldRequest {
        bounds,
        goal_cell: SpatialCell { x: 0, y: 0 },
        blocked_cells: Vec::new(),
        map_checksum: MAPDATA_V0_LOCAL_FIXTURE_CHECKSUM,
    }));
}

#[test]
fn movement_scale_run_is_deterministic_for_10k_flow_field() {
    let scenario = movement_scale_scenarios()[2];
    let first = run_movement_scale_scenario(scenario);
    let second = run_movement_scale_scenario(scenario);

    assert_eq!(first, second);
    assert_eq!(
        first.scenario_id,
        MovementScaleScenarioId::SharedObjective10kFlowField
    );
    assert_eq!(first.entity_count, 10_000);
    assert_eq!(first.final_tick, scenario.tick_count);
    assert!(first.movement_queries > first.entity_count as u64);
    assert!(first.correction_count > 0);
    assert!(first.occupied_cells > 0);
    assert_eq!(first.flow_field_build_count, 1);
    assert_eq!(first.flow_field_cache_request_count, first.tick_count);
    assert_eq!(first.flow_field_cache_hit_count, first.tick_count - 1);
    assert_eq!(first.flow_field_cache_eviction_count, 0);
    assert!(first.flow_field_cache_entry_count <= FLOW_FIELD_CACHE_ENTRY_LIMIT);
    assert_eq!(
        first.flow_field_query_count,
        first.entity_count as u64 * first.tick_count
    );
    assert_eq!(
        first.flow_field_collision_admission_check_count,
        FLOW_FIELD_COLLISION_SAMPLE_COUNT as u64 * first.tick_count
    );
    assert!(first.flow_field_collision_admission_accepted_count > 0);
    assert!(first.flow_field_collision_admission_rejected_count > 0);
    assert_eq!(
        first.flow_field_collision_resolved_admission_check_count,
        FLOW_FIELD_COLLISION_SAMPLE_COUNT as u64 * first.tick_count
    );
    assert!(first.flow_field_collision_resolved_admission_rejected_count > 0);
    assert!(first.flow_field_collision_resolved_admission_iterations_run_count > 0);
    assert!(first.flow_field_collision_resolved_admission_correction_count > 0);
    assert!(first.flow_field_collision_resolved_admission_correction_abs_mm_total > 0);
    assert!(first.flow_field_collision_resolved_admission_max_correction_abs_mm > 0);
    assert_eq!(
        first.flow_field_collision_movement_probe_count,
        FLOW_FIELD_COLLISION_SAMPLE_COUNT as u64 * first.tick_count
    );
    assert_eq!(
        first.flow_field_collision_movement_probe_blocked_count,
        first.flow_field_collision_resolved_admission_rejected_count
    );
    assert!(first.flow_field_collision_movement_applied_delta_count > 0);
    assert_eq!(
        first.flow_field_collision_movement_blocked_delta_count,
        first.flow_field_collision_movement_probe_blocked_count
    );
    assert_eq!(
        first.flow_field_collision_apply_physics_candidate_count,
        first.flow_field_collision_movement_applied_delta_count
    );
    assert!(first.flow_field_collision_apply_physics_candidate_count > 0);
    assert!(first.flow_field_collision_apply_physics_initial_contact_count > 0);
    assert!(first.flow_field_collision_apply_physics_iterations_run_count > 0);
    assert!(first.flow_field_collision_apply_physics_correction_count > 0);
    assert!(first.flow_field_collision_apply_physics_correction_abs_mm_total > 0);
    assert!(first.flow_field_collision_apply_physics_max_correction_abs_mm > 0);
    assert!(
        first.flow_field_collision_apply_physics_final_contact_count
            <= first.flow_field_collision_apply_physics_initial_contact_count
    );
    assert!(first.flow_field_collision_apply_physics_synced_position_count > 0);
    assert_eq!(
        first.flow_field_static_obstacle_body_count,
        scenario.blocker_cell_count
    );
    assert!(first.flow_field_visited_cell_count > 0);
    assert_eq!(
        first.flow_field_blocked_cell_count,
        scenario.blocker_cell_count
    );
    assert_eq!(first.flow_field_unreachable_count, 0);
    assert_eq!(first.map_checksum, MAPDATA_V0_LOCAL_FIXTURE_CHECKSUM);
}

#[test]
fn local_avoidance_scenario_records_higher_query_pressure() {
    let direct = run_movement_scale_scenario(movement_scale_scenarios()[0]);
    let avoidance = run_movement_scale_scenario(movement_scale_scenarios()[3]);

    assert!(avoidance.movement_queries > direct.movement_queries);
    assert!(avoidance.correction_count > direct.correction_count);
    assert_eq!(direct.flow_field_build_count, 0);
    assert_eq!(direct.flow_field_cache_hit_count, 0);
    assert_eq!(direct.flow_field_cache_eviction_count, 0);
    assert_eq!(direct.flow_field_cache_entry_count, 0);
    assert_eq!(direct.flow_field_collision_admission_check_count, 0);
    assert_eq!(
        direct.flow_field_collision_resolved_admission_check_count,
        0
    );
    assert_eq!(
        direct.flow_field_collision_resolved_admission_correction_abs_mm_total,
        0
    );
    assert_eq!(
        direct.flow_field_collision_resolved_admission_max_correction_abs_mm,
        0
    );
    assert_eq!(direct.flow_field_collision_movement_probe_count, 0);
    assert_eq!(direct.flow_field_collision_movement_applied_delta_count, 0);
    assert_eq!(direct.flow_field_collision_apply_physics_candidate_count, 0);
    assert_eq!(
        direct.flow_field_collision_apply_physics_correction_abs_mm_total,
        0
    );
    assert_eq!(
        direct.flow_field_collision_apply_physics_synced_position_count,
        0
    );
    assert_eq!(avoidance.flow_field_build_count, 0);
    assert_eq!(avoidance.flow_field_cache_request_count, 0);
    assert_eq!(avoidance.flow_field_cache_eviction_count, 0);
    assert_eq!(avoidance.flow_field_cache_entry_count, 0);
    assert_eq!(
        avoidance.flow_field_collision_resolved_admission_check_count,
        0
    );
    assert_eq!(
        avoidance.flow_field_collision_resolved_admission_correction_abs_mm_total,
        0
    );
    assert_eq!(
        avoidance.flow_field_collision_resolved_admission_max_correction_abs_mm,
        0
    );
    assert_eq!(avoidance.flow_field_collision_movement_probe_count, 0);
    assert_eq!(
        avoidance.flow_field_collision_movement_applied_delta_count,
        0
    );
    assert_eq!(
        avoidance.flow_field_collision_apply_physics_candidate_count,
        0
    );
    assert_eq!(
        avoidance.flow_field_collision_apply_physics_correction_abs_mm_total,
        0
    );
    assert_eq!(
        avoidance.flow_field_collision_apply_physics_synced_position_count,
        0
    );
    assert_eq!(avoidance.flow_field_static_obstacle_body_count, 0);
}
