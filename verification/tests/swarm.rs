use std::collections::{BTreeMap, BTreeSet};
use millions_server::collision::{CollisionBody, CollisionBodyKind, CollisionMovementDecision};
use millions_server::interest::{AoiRegion};
use millions_server::map_data::{MAP_DATA_SCHEMA, MapBounds, MapDataImport, MapDataValidationError, MapPoint, MapShape, MapShapeKind};
use millions_server::metrics::{SNAPSHOT_HEADER_BYTES, estimate_snapshot_bytes};
use millions_server::movement_scale::{FlowFieldBounds, FlowFieldStepResult};
use millions_server::perf_budget::{BudgetResult};
use millions_server::simulation::{EntityId, MovementDelta, PlayerSessionId, SpatialCell, Tick, WorldPosition};
use millions_server::swarm::{AggroStimulus, AggroTrailLane, AggroTrailSample, RoutePressureSample, SWARM_CONFIGURED_MOVEMENT_LOOP_SAMPLE_COUNT, SWARM_CONFIGURED_MOVEMENT_LOOP_TICK_COUNT, SWARM_ENTITY_KIND, SWARM_FLOW_FIELD_CACHE_ENTRY_LIMIT, SWARM_MAP_OBSTACLE_ENTITY_ID_BASE, SWARM_MOVEMENT_PREVIEW_CELL_SIZE_MM, SWARM_SCHEMA, SwarmConfig, SwarmError, SwarmFlowFieldCache, SwarmIntentKind, SwarmMovementMode, SwarmSpawnPoint, SwarmState, changed_visible_entity_count, percentile_nearest_rank, prepare_swarm_movement_measurement_base, run_swarm_batch_vs_single_movement_loop_measurement, run_swarm_configured_movement_loop_measurement, swarm_blocker_cells_for_map_shape};

const SWARM_CONFIGURED_MOVEMENT_MEASUREMENT_SAMPLE_COUNT: usize = 3;

fn config() -> SwarmConfig {
    SwarmConfig {
        start_tick: Tick(10),
        spawn_interval_ticks: 3,
        spawn_batch_size: 2,
        max_active: 5,
        route_pressure_radius_mm: 4_000,
        collision_radius_mm: 300,
        direct_aggro_ticks: 4,
        aggro_memory_ticks: 12,
        full_lod_distance_mm: 2_000,
        reduced_lod_distance_mm: 12_000,
        movement_mode: SwarmMovementMode::SpawnOnly,
        movement_sample_limit: 2,
        movement_cell_size_mm: SWARM_MOVEMENT_PREVIEW_CELL_SIZE_MM,
        movement_physics_iterations: 1,
        movement_correction_limit_abs_mm: None,
    }
}

fn spawn_points() -> Vec<SwarmSpawnPoint> {
    vec![
        SwarmSpawnPoint {
            spawn_id: 1,
            position: WorldPosition {
                x_mm: -1_000,
                y_mm: 0,
            },
            route_target: WorldPosition {
                x_mm: 10_000,
                y_mm: 0,
            },
        },
        SwarmSpawnPoint {
            spawn_id: 2,
            position: WorldPosition {
                x_mm: 0,
                y_mm: 2_000,
            },
            route_target: WorldPosition {
                x_mm: 10_000,
                y_mm: 0,
            },
        },
        SwarmSpawnPoint {
            spawn_id: 3,
            position: WorldPosition {
                x_mm: 1_000,
                y_mm: -2_000,
            },
            route_target: WorldPosition {
                x_mm: -10_000,
                y_mm: 0,
            },
        },
    ]
}

fn load_smoke_obstacle_map_data() -> MapDataImport {
    MapDataImport {
        schema: MAP_DATA_SCHEMA,
        map_id: "swarm-load-smoke-local-map".to_string(),
        map_version: 1,
        checksum: "sum16:swarm-local-obstacles".to_string(),
        bounds_mm: MapBounds {
            min_x: -100_000,
            min_y: -100_000,
            max_x: 100_000,
            max_y: 100_000,
        },
        spawn_points: Vec::new(),
        capture_points: Vec::new(),
        obstacles: vec![
            map_obstacle_shape("obstacle_spawn_1", -12_000, -12_000, 900),
            map_obstacle_shape("obstacle_spawn_2", -40_000, 40_000, 900),
            map_obstacle_shape("obstacle_spawn_3", 90_000, 90_000, 900),
            map_obstacle_shape("obstacle_spawn_4", 12_000, 12_000, 900),
        ],
        cover_objects: Vec::new(),
        navigation_hints: Vec::new(),
    }
}

fn map_obstacle_shape(id: &str, x_mm: i32, y_mm: i32, half_extent_mm: i32) -> MapShape {
    MapShape {
        id: id.to_string(),
        kind: MapShapeKind::Obstacle,
        center: MapPoint { x_mm, y_mm },
        half_extents_mm: MapPoint {
            x_mm: half_extent_mm,
            y_mm: half_extent_mm,
        },
        class_label: "swarm_blocker".to_string(),
    }
}

fn static_obstacle(entity_id: u64, x_mm: i32, y_mm: i32, radius_mm: i32) -> CollisionBody {
    CollisionBody {
        entity_id: EntityId(entity_id),
        kind: CollisionBodyKind::StaticObstacle,
        position: WorldPosition { x_mm, y_mm },
        radius_mm,
    }
}

#[test]
fn swarm_rejects_invalid_authority_inputs() {
    assert_eq!(
        SwarmState::new(config(), Vec::new(), EntityId(100)).unwrap_err(),
        SwarmError::EmptySpawnPoints
    );

    let mut invalid = config();
    invalid.spawn_interval_ticks = 0;
    assert_eq!(
        SwarmState::new(invalid, spawn_points(), EntityId(100)).unwrap_err(),
        SwarmError::InvalidSpawnInterval
    );

    invalid = config();
    invalid.spawn_batch_size = 0;
    assert_eq!(
        SwarmState::new(invalid, spawn_points(), EntityId(100)).unwrap_err(),
        SwarmError::InvalidSpawnBatchSize
    );

    invalid = config();
    invalid.max_active = 0;
    assert_eq!(
        SwarmState::new(invalid, spawn_points(), EntityId(100)).unwrap_err(),
        SwarmError::InvalidMaxActive
    );

    invalid = config();
    invalid.collision_radius_mm = 0;
    assert_eq!(
        SwarmState::new(invalid, spawn_points(), EntityId(100)).unwrap_err(),
        SwarmError::InvalidCollisionRadius
    );

    invalid = config();
    invalid.direct_aggro_ticks = 20;
    invalid.aggro_memory_ticks = 10;
    assert_eq!(
        SwarmState::new(invalid, spawn_points(), EntityId(100)).unwrap_err(),
        SwarmError::InvalidAggroWindow
    );

    invalid = config();
    invalid.full_lod_distance_mm = 20_000;
    invalid.reduced_lod_distance_mm = 10_000;
    assert_eq!(
        SwarmState::new(invalid, spawn_points(), EntityId(100)).unwrap_err(),
        SwarmError::InvalidLodDistance
    );

    invalid = config().with_flow_field_collision_movement(0, 1_000, 1);
    assert_eq!(
        SwarmState::new(invalid, spawn_points(), EntityId(100)).unwrap_err(),
        SwarmError::InvalidMovementSampleLimit
    );

    invalid = config().with_flow_field_collision_movement(1, 0, 1);
    assert_eq!(
        SwarmState::new(invalid, spawn_points(), EntityId(100)).unwrap_err(),
        SwarmError::InvalidMovementCellSize
    );

    invalid = config().with_flow_field_collision_movement(1, 1_000, 0);
    assert_eq!(
        SwarmState::new(invalid, spawn_points(), EntityId(100)).unwrap_err(),
        SwarmError::InvalidMovementPhysicsIterations
    );

    invalid = config().with_batch_flow_field_collision_movement(0, 1_000, 1);
    assert_eq!(
        SwarmState::new(invalid, spawn_points(), EntityId(100)).unwrap_err(),
        SwarmError::InvalidMovementSampleLimit
    );

    let mut swarm =
        SwarmState::new(config(), spawn_points(), EntityId(100)).expect("valid swarm");
    assert_eq!(
        swarm
            .set_static_obstacles(vec![CollisionBody {
                entity_id: EntityId(900),
                kind: CollisionBodyKind::Swarm,
                position: WorldPosition { x_mm: 0, y_mm: 0 },
                radius_mm: 300,
            }])
            .unwrap_err(),
        SwarmError::InvalidStaticObstacle
    );

    let mut invalid_map = load_smoke_obstacle_map_data();
    invalid_map.schema = "wrong_schema";
    assert_eq!(
        swarm
            .set_static_obstacles_from_map_data(&invalid_map)
            .unwrap_err(),
        SwarmError::InvalidMapData(MapDataValidationError::UnsupportedSchema)
    );
}

#[test]
fn swarm_timer_spawns_gradually_and_caps_active_entities() {
    let mut swarm =
        SwarmState::new(config(), spawn_points(), EntityId(100)).expect("valid swarm");

    let before = swarm.tick(Tick(9));
    assert!(before.spawned_entity_ids.is_empty());
    assert_eq!(before.active_count, 0);
    assert!(!before.spawn_capped);

    let first = swarm.tick(Tick(10));
    assert_eq!(first.spawned_entity_ids, vec![EntityId(100), EntityId(101)]);
    assert_eq!(first.active_count, 2);
    assert!(!first.spawn_capped);
    assert!(first.movement.is_none());

    let between = swarm.tick(Tick(11));
    assert!(between.spawned_entity_ids.is_empty());
    assert_eq!(between.active_count, 2);

    let second = swarm.tick(Tick(13));
    assert_eq!(
        second.spawned_entity_ids,
        vec![EntityId(102), EntityId(103)]
    );
    assert_eq!(second.active_count, 4);

    let capped = swarm.tick(Tick(16));
    assert_eq!(capped.spawned_entity_ids, vec![EntityId(104)]);
    assert_eq!(capped.active_count, 5);
    assert!(capped.spawn_capped);
    assert!(capped.movement.is_none());

    let after_cap = swarm.tick(Tick(19));
    assert!(after_cap.spawned_entity_ids.is_empty());
    assert_eq!(after_cap.active_count, 5);
    assert!(after_cap.spawn_capped);
    assert_eq!(swarm.spawned_total(), 5);
}

#[test]
fn swarm_uses_round_robin_spawn_points_deterministically() {
    let mut swarm =
        SwarmState::new(config(), spawn_points(), EntityId(200)).expect("valid swarm");

    swarm.tick(Tick(10));
    swarm.tick(Tick(13));

    let entities = swarm.active_entities().iter().copied().collect::<Vec<_>>();
    assert_eq!(entities.len(), 4);
    assert_eq!(entities[0].entity_id, EntityId(200));
    assert_eq!(entities[0].position, spawn_points()[0].position);
    assert_eq!(entities[1].entity_id, EntityId(201));
    assert_eq!(entities[1].position, spawn_points()[1].position);
    assert_eq!(entities[2].entity_id, EntityId(202));
    assert_eq!(entities[2].position, spawn_points()[2].position);
    assert_eq!(entities[3].entity_id, EntityId(203));
    assert_eq!(entities[3].position, spawn_points()[0].position);
}

#[test]
fn route_pressure_groups_active_swarm_by_route_target() {
    let mut swarm =
        SwarmState::new(config(), spawn_points(), EntityId(300)).expect("valid swarm");

    swarm.tick(Tick(10));
    let report = swarm.tick(Tick(13));

    assert_eq!(report.schema, SWARM_SCHEMA);
    assert_eq!(report.route_pressure.len(), 2);
    assert_eq!(
        report.route_pressure[0],
        RoutePressureSample {
            target_position: WorldPosition {
                x_mm: -10_000,
                y_mm: 0,
            },
            active_entity_count: 1,
            radius_mm: 4_000,
            nearest_distance_sq_mm: 125_000_000,
            farthest_distance_sq_mm: 125_000_000,
        }
    );
    assert_eq!(
        report.route_pressure[1],
        RoutePressureSample {
            target_position: WorldPosition {
                x_mm: 10_000,
                y_mm: 0,
            },
            active_entity_count: 3,
            radius_mm: 4_000,
            nearest_distance_sq_mm: 104_000_000,
            farthest_distance_sq_mm: 121_000_000,
        }
    );
}

#[test]
fn aggro_trails_split_direct_memory_and_expired_intents() {
    let mut swarm =
        SwarmState::new(config(), spawn_points(), EntityId(400)).expect("valid swarm");
    swarm.tick(Tick(10));
    swarm.record_aggro_stimulus(AggroStimulus {
        source_entity_id: EntityId(900),
        position: WorldPosition {
            x_mm: 5_000,
            y_mm: 5_000,
        },
        tick: Tick(11),
        strength: 50,
    });

    let direct = swarm.tick(Tick(13));
    assert_eq!(
        direct.aggro_trails,
        vec![AggroTrailSample {
            source_entity_id: EntityId(900),
            position: WorldPosition {
                x_mm: 5_000,
                y_mm: 5_000,
            },
            last_seen_tick: Tick(11),
            age_ticks: 2,
            strength: 50,
            lane: AggroTrailLane::Direct,
        }]
    );

    let memory = swarm.tick(Tick(20));
    assert_eq!(memory.aggro_trails[0].lane, AggroTrailLane::Memory);
    assert_eq!(memory.aggro_trails[0].age_ticks, 9);

    let expired = swarm.tick(Tick(30));
    assert!(expired.aggro_trails.is_empty());
}

#[test]
fn behavior_report_selects_aggro_intent_and_ai_lod() {
    let mut swarm =
        SwarmState::new(config(), spawn_points(), EntityId(500)).expect("valid swarm");
    swarm.tick(Tick(10));
    swarm.tick(Tick(13));
    swarm.record_aggro_stimulus(AggroStimulus {
        source_entity_id: EntityId(999),
        position: WorldPosition {
            x_mm: 7_000,
            y_mm: 0,
        },
        tick: Tick(12),
        strength: 80,
    });

    let report = swarm.evaluate_behavior(Tick(13), WorldPosition { x_mm: 0, y_mm: 0 });

    assert_eq!(report.schema, SWARM_SCHEMA);
    assert_eq!(report.samples.len(), 4);
    assert_eq!(report.lod_counts.full, 3);
    assert_eq!(report.lod_counts.reduced, 1);
    assert_eq!(report.lod_counts.aggregate, 0);
    assert!(report
        .samples
        .iter()
        .all(|sample| sample.intent_kind == SwarmIntentKind::AggroDirect));
    assert!(report.samples.iter().all(|sample| sample.intent_target
        == (WorldPosition {
            x_mm: 7_000,
            y_mm: 0
        })));

    let memory = swarm.evaluate_behavior(Tick(20), WorldPosition { x_mm: 0, y_mm: 0 });
    assert!(memory
        .samples
        .iter()
        .all(|sample| sample.intent_kind == SwarmIntentKind::AggroMemory));

    let route = swarm.evaluate_behavior(Tick(40), WorldPosition { x_mm: 0, y_mm: 0 });
    assert!(route
        .samples
        .iter()
        .all(|sample| sample.intent_kind == SwarmIntentKind::RoutePressure));
}

#[test]
fn movement_preview_applies_flow_field_candidates_to_local_physics_preview() {
    let mut swarm =
        SwarmState::new(config(), spawn_points(), EntityId(550)).expect("valid swarm");
    swarm.tick(Tick(10));

    let report = swarm.movement_preview(
        Tick(10),
        WorldPosition { x_mm: 0, y_mm: 0 },
        2,
        SWARM_MOVEMENT_PREVIEW_CELL_SIZE_MM,
    );

    assert_eq!(report.schema, SWARM_SCHEMA);
    assert_eq!(report.sample_count, 2);
    assert_eq!(report.flow_field_query_count, 2);
    assert_eq!(report.flow_field_build_count, 1);
    assert_eq!(report.flow_field_unreachable_count, 0);
    assert!(report.flow_field_build_count > 0);
    assert_eq!(report.applied_delta_count, 2);
    assert_eq!(report.physics_candidate_count, report.applied_delta_count);
    assert_eq!(report.physics_initial_contact_count, 0);
    assert_eq!(report.physics_final_contact_count, 0);
    assert!(report
        .samples
        .iter()
        .all(|sample| sample.flow_field_result == FlowFieldStepResult::NextCell));
    assert!(report
        .samples
        .iter()
        .all(|sample| sample.collision_decision == CollisionMovementDecision::Accepted));
    assert!(report
        .samples
        .iter()
        .all(|sample| sample.requested_delta == sample.resolved_delta));
    assert_eq!(report.claim_scope, "movement_preview_only");
}

#[test]
fn movement_preview_uses_static_obstacles_as_flow_field_blockers() {
    let mut swarm =
        SwarmState::new(config(), spawn_points(), EntityId(560)).expect("valid swarm");
    swarm.tick(Tick(10));
    swarm
        .set_static_obstacles(vec![static_obstacle(900, 1_000, 0, 900)])
        .expect("valid static obstacle");

    let report = swarm.movement_preview(
        Tick(10),
        WorldPosition { x_mm: 0, y_mm: 0 },
        1,
        SWARM_MOVEMENT_PREVIEW_CELL_SIZE_MM,
    );
    let sample = report.samples.first().expect("one movement sample");

    assert_eq!(swarm.static_obstacle_count(), 1);
    assert_eq!(report.sample_count, 1);
    assert_eq!(sample.flow_field_result, FlowFieldStepResult::NextCell);
    assert_eq!(sample.requested_delta.dx_mm, 0);
    assert_ne!(sample.requested_delta.dy_mm, 0);
    assert_eq!(
        sample.collision_decision,
        CollisionMovementDecision::Accepted
    );
}

#[test]
fn map_data_obstacles_become_swarm_static_obstacles() {
    let map = MapDataImport {
        schema: MAP_DATA_SCHEMA,
        map_id: "swarm-test-map".to_string(),
        map_version: 1,
        checksum: "sum16:swarm-test".to_string(),
        bounds_mm: MapBounds {
            min_x: -10_000,
            min_y: -10_000,
            max_x: 10_000,
            max_y: 10_000,
        },
        spawn_points: Vec::new(),
        capture_points: Vec::new(),
        obstacles: vec![MapShape {
            id: "wall_a".to_string(),
            kind: MapShapeKind::Obstacle,
            center: MapPoint {
                x_mm: 1_000,
                y_mm: 0,
            },
            half_extents_mm: MapPoint {
                x_mm: 400,
                y_mm: 700,
            },
            class_label: "blocker".to_string(),
        }],
        cover_objects: Vec::new(),
        navigation_hints: Vec::new(),
    };
    let mut swarm =
        SwarmState::new(config(), spawn_points(), EntityId(565)).expect("valid swarm");

    assert_eq!(swarm.set_static_obstacles_from_map_data(&map), Ok(1));
    assert_eq!(swarm.static_obstacle_count(), 1);
    assert_eq!(swarm.collision_bodies().len(), 0);

    let bodies = swarm.movement_collision_bodies();
    assert_eq!(bodies.len(), 1);
    assert_eq!(
        bodies[0],
        CollisionBody {
            entity_id: EntityId(SWARM_MAP_OBSTACLE_ENTITY_ID_BASE),
            kind: CollisionBodyKind::StaticObstacle,
            position: WorldPosition {
                x_mm: 1_000,
                y_mm: 0,
            },
            radius_mm: 700,
        }
    );
}

#[test]
fn map_data_obstacle_extents_expand_flow_field_blocker_cells() {
    let shape = MapShape {
        id: "wide_wall".to_string(),
        kind: MapShapeKind::Obstacle,
        center: MapPoint { x_mm: 0, y_mm: 0 },
        half_extents_mm: MapPoint {
            x_mm: 2_500,
            y_mm: 500,
        },
        class_label: "blocker".to_string(),
    };

    let cells = swarm_blocker_cells_for_map_shape(
        &shape,
        1_000,
        FlowFieldBounds {
            min_x: -4,
            min_y: -2,
            max_x: 4,
            max_y: 2,
        },
        0,
    );

    assert_eq!(cells.len(), 12);
    assert!(cells.contains(&SpatialCell { x: -3, y: -1 }));
    assert!(cells.contains(&SpatialCell { x: 2, y: 0 }));

    let clipped = swarm_blocker_cells_for_map_shape(
        &shape,
        1_000,
        FlowFieldBounds {
            min_x: 0,
            min_y: 0,
            max_x: 1,
            max_y: 0,
        },
        0,
    );
    assert_eq!(
        clipped.into_iter().collect::<BTreeSet<_>>(),
        [SpatialCell { x: 0, y: 0 }, SpatialCell { x: 1, y: 0 }]
            .into_iter()
            .collect::<BTreeSet<_>>()
    );
}

#[test]
fn map_data_obstacle_clearance_expands_flow_field_blocker_cells() {
    let shape = MapShape {
        id: "tight_blocker".to_string(),
        kind: MapShapeKind::Obstacle,
        center: MapPoint {
            x_mm: 500,
            y_mm: 500,
        },
        half_extents_mm: MapPoint {
            x_mm: 100,
            y_mm: 100,
        },
        class_label: "blocker".to_string(),
    };
    let bounds = FlowFieldBounds {
        min_x: -1,
        min_y: -1,
        max_x: 1,
        max_y: 1,
    };

    let without_clearance = swarm_blocker_cells_for_map_shape(&shape, 1_000, bounds, 0);
    let with_clearance = swarm_blocker_cells_for_map_shape(&shape, 1_000, bounds, 600);

    assert_eq!(
        without_clearance.into_iter().collect::<BTreeSet<_>>(),
        [SpatialCell { x: 0, y: 0 }]
            .into_iter()
            .collect::<BTreeSet<_>>()
    );
    assert_eq!(with_clearance.len(), 9);
    assert!(with_clearance.contains(&SpatialCell { x: -1, y: -1 }));
    assert!(with_clearance.contains(&SpatialCell { x: 0, y: 0 }));
    assert!(with_clearance.contains(&SpatialCell { x: 1, y: 1 }));
}

#[test]
fn swarm_flow_field_cache_evicts_deterministically_at_entry_limit() {
    let mut cache = SwarmFlowFieldCache::new();
    let bounds = FlowFieldBounds {
        min_x: 0,
        min_y: 0,
        max_x: SWARM_FLOW_FIELD_CACHE_ENTRY_LIMIT as i32 + 4,
        max_y: 0,
    };

    for target_x in 0..(SWARM_FLOW_FIELD_CACHE_ENTRY_LIMIT + 3) {
        cache.get_or_build(
            bounds,
            SpatialCell {
                x: target_x as i32,
                y: 0,
            },
            &Vec::new(),
            1_000,
        );
    }

    let stats = cache.stats();
    assert_eq!(cache.entry_count(), SWARM_FLOW_FIELD_CACHE_ENTRY_LIMIT);
    assert_eq!(
        stats.request_count,
        (SWARM_FLOW_FIELD_CACHE_ENTRY_LIMIT + 3) as u64
    );
    assert_eq!(
        stats.build_count,
        (SWARM_FLOW_FIELD_CACHE_ENTRY_LIMIT + 3) as u64
    );
    assert_eq!(stats.hit_count, 0);
    assert_eq!(stats.eviction_count, 3);
    assert!(!cache.contains_key(bounds, SpatialCell { x: 0, y: 0 }, &Vec::new(), 1_000));
}

#[test]
fn movement_apply_step_mutates_swarm_positions_from_flow_field_collision_candidates() {
    let mut swarm =
        SwarmState::new(config(), spawn_points(), EntityId(575)).expect("valid swarm");
    swarm.tick(Tick(10));
    let before = swarm
        .active_entities()
        .iter()
        .map(|entity| (entity.entity_id, entity.position))
        .collect::<BTreeMap<_, _>>();

    let report = swarm.apply_flow_field_movement_step(
        Tick(10),
        WorldPosition { x_mm: 0, y_mm: 0 },
        2,
        SWARM_MOVEMENT_PREVIEW_CELL_SIZE_MM,
        1,
    );
    let after = swarm
        .active_entities()
        .iter()
        .map(|entity| (entity.entity_id, entity.position))
        .collect::<BTreeMap<_, _>>();

    assert_eq!(report.schema, SWARM_SCHEMA);
    assert_eq!(report.sample_count, 2);
    assert_eq!(report.flow_field_query_count, 2);
    assert_eq!(report.flow_field_cache_request_count, 2);
    assert_eq!(report.flow_field_build_count, 1);
    assert_eq!(report.flow_field_cache_hit_count, 1);
    assert_eq!(report.flow_field_cache_eviction_count, 0);
    assert!(report.flow_field_cache_entry_count <= SWARM_FLOW_FIELD_CACHE_ENTRY_LIMIT);
    assert_eq!(report.flow_field_unreachable_count, 0);
    assert_eq!(report.applied_delta_count, 2);
    assert_eq!(report.blocked_delta_count, 0);
    assert_eq!(report.movement_probe_correction_limit_abs_mm, None);
    assert_eq!(report.movement_probe_clamped_correction_count, 0);
    assert_eq!(report.physics_candidate_count, 2);
    assert_eq!(report.physics_final_contact_count, 0);
    assert_eq!(report.physics_correction_limit_abs_mm, None);
    assert_eq!(report.physics_clamped_correction_count, 0);
    assert!(
        report.physics_synced_position_count >= report.physics_sample_synced_position_count
    );
    assert!(report.samples.iter().all(|sample| {
        before.get(&sample.entity_id).copied() == Some(sample.from_position)
            && after.get(&sample.entity_id).copied() == Some(sample.final_position)
            && sample.from_position != sample.final_position
    }));
    assert_eq!(report.claim_scope, "swarm_movement_apply_opt_in");
}

#[test]
fn movement_apply_corrects_target_cell_static_obstacle_collision() {
    let mut one_spawn_config = config();
    one_spawn_config.spawn_batch_size = 1;
    one_spawn_config.max_active = 1;
    let mut swarm = SwarmState::new(
        one_spawn_config,
        vec![SwarmSpawnPoint {
            spawn_id: 1,
            position: WorldPosition { x_mm: 0, y_mm: 0 },
            route_target: WorldPosition { x_mm: 250, y_mm: 0 },
        }],
        EntityId(580),
    )
    .expect("valid swarm");
    swarm.tick(Tick(10));
    swarm
        .set_static_obstacles(vec![static_obstacle(901, 250, 0, 300)])
        .expect("valid static obstacle");

    let report = swarm.apply_flow_field_movement_step(
        Tick(10),
        WorldPosition { x_mm: 0, y_mm: 0 },
        1,
        250,
        1,
    );
    let sample = report.samples.first().expect("one movement sample");

    assert_eq!(
        sample.requested_delta,
        MovementDelta {
            dx_mm: 250,
            dy_mm: 0
        }
    );
    assert_eq!(
        sample.collision_decision,
        CollisionMovementDecision::Corrected
    );
    assert_ne!(sample.final_position, sample.intent_target);
    assert_eq!(
        swarm
            .active_entities()
            .iter()
            .find(|entity| entity.entity_id == sample.entity_id)
            .map(|entity| entity.position),
        Some(sample.final_position)
    );
    assert_eq!(report.corrected_delta_count, 1);
    assert_eq!(report.movement_probe_correction_limit_abs_mm, None);
    assert_eq!(report.movement_probe_clamped_correction_count, 0);
    assert_eq!(report.physics_candidate_count, 1);
}

#[test]
fn movement_apply_correction_limit_flows_through_collision_probe() {
    let mut one_spawn_config = config();
    one_spawn_config.spawn_batch_size = 1;
    one_spawn_config.max_active = 1;
    let mut swarm = SwarmState::new(
        one_spawn_config,
        vec![SwarmSpawnPoint {
            spawn_id: 1,
            position: WorldPosition { x_mm: 0, y_mm: 0 },
            route_target: WorldPosition { x_mm: 250, y_mm: 0 },
        }],
        EntityId(590),
    )
    .expect("valid swarm");
    swarm.tick(Tick(10));
    swarm
        .set_static_obstacles(vec![static_obstacle(902, 250, 0, 300)])
        .expect("valid static obstacle");

    let report = swarm.apply_flow_field_movement_step_with_correction_limit(
        Tick(10),
        WorldPosition { x_mm: 0, y_mm: 0 },
        1,
        250,
        1,
        50,
    );
    let sample = report.samples.first().expect("one movement sample");

    assert_eq!(report.movement_probe_correction_limit_abs_mm, Some(50));
    assert!(report.movement_probe_clamped_correction_count > 0);
    assert_eq!(report.applied_delta_count, 0);
    assert_eq!(report.blocked_delta_count, 1);
    assert_eq!(
        sample.collision_decision,
        CollisionMovementDecision::Blocked
    );
    assert_eq!(sample.final_position, sample.from_position);
    assert_eq!(report.physics_correction_limit_abs_mm, Some(50));
    assert_eq!(report.physics_candidate_count, 0);
    assert_eq!(report.physics_clamped_correction_count, 0);
}

#[test]
fn movement_batch_apply_step_mutates_swarm_positions_from_batch_flow_field_collision_candidates(
) {
    let mut swarm =
        SwarmState::new(config(), spawn_points(), EntityId(595)).expect("valid swarm");
    swarm.tick(Tick(10));
    let before = swarm
        .active_entities()
        .iter()
        .map(|entity| (entity.entity_id, entity.position))
        .collect::<BTreeMap<_, _>>();

    let report = swarm.apply_flow_field_batch_movement_step(
        Tick(10),
        WorldPosition { x_mm: 0, y_mm: 0 },
        2,
        SWARM_MOVEMENT_PREVIEW_CELL_SIZE_MM,
        1,
    );
    let after = swarm
        .active_entities()
        .iter()
        .map(|entity| (entity.entity_id, entity.position))
        .collect::<BTreeMap<_, _>>();

    assert_eq!(report.schema, SWARM_SCHEMA);
    assert_eq!(report.sample_count, 2);
    assert_eq!(report.flow_field_query_count, 2);
    assert_eq!(report.flow_field_cache_request_count, 2);
    assert_eq!(report.flow_field_build_count, 1);
    assert_eq!(report.flow_field_cache_hit_count, 1);
    assert_eq!(report.flow_field_cache_eviction_count, 0);
    assert_eq!(report.flow_field_unreachable_count, 0);
    assert_eq!(
        report.applied_delta_count + report.blocked_delta_count,
        report.sample_count
    );
    assert_eq!(report.applied_delta_count, 2);
    assert_eq!(report.blocked_delta_count, 0);
    assert_eq!(report.movement_probe_correction_limit_abs_mm, None);
    assert_eq!(report.movement_probe_clamped_correction_count, 0);
    assert_eq!(report.physics_candidate_count, report.applied_delta_count);
    assert!(
        report.physics_synced_position_count >= report.physics_sample_synced_position_count
    );
    assert!(report.samples.iter().all(|sample| {
        before.get(&sample.entity_id).copied() == Some(sample.from_position)
            && after.get(&sample.entity_id).copied() == Some(sample.final_position)
            && sample.from_position != sample.final_position
    }));
    assert_eq!(report.claim_scope, "swarm_batch_movement_apply_opt_in");
}

#[test]
fn movement_batch_apply_correction_limit_flows_through_batch_collision_probe() {
    let mut one_spawn_config = config();
    one_spawn_config.spawn_batch_size = 1;
    one_spawn_config.max_active = 1;
    let mut swarm = SwarmState::new(
        one_spawn_config,
        vec![SwarmSpawnPoint {
            spawn_id: 1,
            position: WorldPosition { x_mm: 0, y_mm: 0 },
            route_target: WorldPosition { x_mm: 250, y_mm: 0 },
        }],
        EntityId(596),
    )
    .expect("valid swarm");
    swarm.tick(Tick(10));
    swarm
        .set_static_obstacles(vec![static_obstacle(903, 250, 0, 300)])
        .expect("valid static obstacle");

    let report = swarm.apply_flow_field_batch_movement_step_with_correction_limit(
        Tick(10),
        WorldPosition { x_mm: 0, y_mm: 0 },
        1,
        250,
        1,
        50,
    );
    let sample = report.samples.first().expect("one movement sample");

    assert_eq!(report.claim_scope, "swarm_batch_movement_apply_opt_in");
    assert_eq!(report.movement_probe_correction_limit_abs_mm, Some(50));
    assert!(report.movement_probe_clamped_correction_count > 0);
    assert_eq!(report.applied_delta_count, 0);
    assert_eq!(report.blocked_delta_count, 1);
    assert_eq!(
        sample.collision_decision,
        CollisionMovementDecision::Blocked
    );
    assert_eq!(sample.final_position, sample.from_position);
    assert_eq!(report.physics_correction_limit_abs_mm, Some(50));
    assert_eq!(report.physics_candidate_count, 0);
    assert_eq!(report.physics_clamped_correction_count, 0);
}

#[test]
fn movement_tick_spawns_and_applies_flow_field_movement_in_one_opt_in_step() {
    let mut swarm =
        SwarmState::new(config(), spawn_points(), EntityId(590)).expect("valid swarm");

    let report = swarm.tick_with_flow_field_movement(
        Tick(10),
        WorldPosition { x_mm: 0, y_mm: 0 },
        2,
        SWARM_MOVEMENT_PREVIEW_CELL_SIZE_MM,
        1,
    );

    assert_eq!(report.schema, SWARM_SCHEMA);
    assert_eq!(report.tick, Tick(10));
    assert_eq!(
        report.tick_report.spawned_entity_ids,
        vec![EntityId(590), EntityId(591)]
    );
    assert_eq!(report.tick_report.active_count, 2);
    assert_eq!(report.movement_report.sample_count, 2);
    assert_eq!(report.movement_report.applied_delta_count, 2);
    assert_eq!(report.movement_report.blocked_delta_count, 0);
    assert_eq!(report.movement_report.physics_candidate_count, 2);
    assert_eq!(
        report.tick_report.movement.as_ref(),
        Some(&report.movement_report)
    );
    assert_eq!(report.claim_scope, "swarm_movement_tick_opt_in");
    for sample in &report.movement_report.samples {
        assert_ne!(sample.from_position, sample.final_position);
        assert_eq!(
            swarm
                .active_entities()
                .iter()
                .find(|entity| entity.entity_id == sample.entity_id)
                .map(|entity| entity.position),
            Some(sample.final_position)
        );
    }
}

#[test]
fn batch_movement_tick_spawns_and_applies_batch_flow_field_movement_in_one_opt_in_step() {
    let mut swarm =
        SwarmState::new(config(), spawn_points(), EntityId(597)).expect("valid swarm");

    let report = swarm.tick_with_batch_flow_field_movement(
        Tick(10),
        WorldPosition { x_mm: 0, y_mm: 0 },
        2,
        SWARM_MOVEMENT_PREVIEW_CELL_SIZE_MM,
        1,
    );

    assert_eq!(report.schema, SWARM_SCHEMA);
    assert_eq!(report.tick, Tick(10));
    assert_eq!(
        report.tick_report.spawned_entity_ids,
        vec![EntityId(597), EntityId(598)]
    );
    assert_eq!(report.tick_report.active_count, 2);
    assert_eq!(report.movement_report.sample_count, 2);
    assert_eq!(report.movement_report.applied_delta_count, 2);
    assert_eq!(report.movement_report.blocked_delta_count, 0);
    assert_eq!(report.movement_report.physics_candidate_count, 2);
    assert_eq!(
        &report.movement_report.claim_scope,
        &"swarm_batch_movement_apply_opt_in"
    );
    assert_eq!(
        report.tick_report.movement.as_ref(),
        Some(&report.movement_report)
    );
    assert_eq!(report.claim_scope, "swarm_batch_movement_tick_opt_in");
    for sample in &report.movement_report.samples {
        assert_ne!(sample.from_position, sample.final_position);
        assert_eq!(
            swarm
                .active_entities()
                .iter()
                .find(|entity| entity.entity_id == sample.entity_id)
                .map(|entity| entity.position),
            Some(sample.final_position)
        );
    }
}

#[test]
fn configured_tick_can_apply_flow_field_collision_movement() {
    let movement_config =
        config().with_flow_field_collision_movement(2, SWARM_MOVEMENT_PREVIEW_CELL_SIZE_MM, 1);
    let mut swarm =
        SwarmState::new(movement_config, spawn_points(), EntityId(595)).expect("valid swarm");

    let report = swarm.tick_with_focus(Tick(10), WorldPosition { x_mm: 0, y_mm: 0 });
    let movement = report
        .movement
        .as_ref()
        .expect("configured tick reports movement");

    assert_eq!(
        report.spawned_entity_ids,
        vec![EntityId(595), EntityId(596)]
    );
    assert_eq!(report.active_count, 2);
    assert_eq!(movement.sample_count, 2);
    assert_eq!(movement.applied_delta_count, 2);
    assert_eq!(movement.blocked_delta_count, 0);
    assert_eq!(movement.physics_candidate_count, 2);
    assert_eq!(movement.physics_final_contact_count, 0);
    assert_eq!(movement.claim_scope, "swarm_movement_apply_opt_in");
    for sample in &movement.samples {
        assert_ne!(sample.from_position, sample.final_position);
        assert_eq!(
            swarm
                .active_entities()
                .iter()
                .find(|entity| entity.entity_id == sample.entity_id)
                .map(|entity| entity.position),
            Some(sample.final_position)
        );
    }
}

#[test]
fn configured_tick_can_apply_batch_flow_field_collision_movement() {
    let movement_config = config().with_batch_flow_field_collision_movement(
        2,
        SWARM_MOVEMENT_PREVIEW_CELL_SIZE_MM,
        1,
    );
    let mut swarm =
        SwarmState::new(movement_config, spawn_points(), EntityId(599)).expect("valid swarm");

    let report = swarm.tick_with_focus(Tick(10), WorldPosition { x_mm: 0, y_mm: 0 });
    let movement = report
        .movement
        .as_ref()
        .expect("configured batch tick reports movement");

    assert_eq!(
        report.spawned_entity_ids,
        vec![EntityId(599), EntityId(600)]
    );
    assert_eq!(report.active_count, 2);
    assert_eq!(movement.sample_count, 2);
    assert_eq!(movement.applied_delta_count, 2);
    assert_eq!(movement.blocked_delta_count, 0);
    assert_eq!(movement.physics_candidate_count, 2);
    assert_eq!(movement.physics_final_contact_count, 0);
    assert_eq!(movement.claim_scope, "swarm_batch_movement_apply_opt_in");
    for sample in &movement.samples {
        assert_ne!(sample.from_position, sample.final_position);
        assert_eq!(
            swarm
                .active_entities()
                .iter()
                .find(|entity| entity.entity_id == sample.entity_id)
                .map(|entity| entity.position),
            Some(sample.final_position)
        );
    }
}

#[test]
fn swarm_snapshot_entities_export_authoritative_positions() {
    let mut swarm =
        SwarmState::new(config(), spawn_points(), EntityId(595)).expect("valid swarm");
    swarm.tick(Tick(10));

    let entities = swarm.snapshot_entities();
    let snapshot = swarm.build_full_snapshot(7, Tick(10));

    assert_eq!(entities.len(), 2);
    assert_eq!(snapshot.snapshot_id, 7);
    assert_eq!(snapshot.baseline_snapshot_id, 0);
    assert_eq!(snapshot.tick, Tick(10));
    assert_eq!(snapshot.entities, entities);
    assert!(snapshot.removed_entities.is_empty());
    assert!(snapshot.entities.iter().all(|entity| {
        entity.entity_kind == SWARM_ENTITY_KIND
            && entity.faction_id == 0
            && entity.flags == 1
            && entity.health_q8 == 256
    }));
}

#[test]
fn movement_tick_snapshot_contains_moved_swarm_positions() {
    let mut swarm =
        SwarmState::new(config(), spawn_points(), EntityId(596)).expect("valid swarm");

    let report = swarm.tick_with_flow_field_movement(
        Tick(10),
        WorldPosition { x_mm: 0, y_mm: 0 },
        2,
        SWARM_MOVEMENT_PREVIEW_CELL_SIZE_MM,
        1,
    );
    let snapshot = swarm.build_full_snapshot(8, Tick(10));

    assert_eq!(snapshot.entities.len(), report.movement_report.sample_count);
    for sample in &report.movement_report.samples {
        assert!(snapshot.entities.iter().any(|entity| {
            entity.entity_id == sample.entity_id
                && entity.position == sample.final_position
                && entity.entity_kind == SWARM_ENTITY_KIND
        }));
    }
    assert!(estimate_snapshot_bytes(&snapshot) > SNAPSHOT_HEADER_BYTES);
}

#[test]
fn movement_tick_interest_delta_snapshot_contains_moved_visible_swarm_entities() {
    let mut swarm =
        SwarmState::new(config(), spawn_points(), EntityId(597)).expect("valid swarm");

    let movement = swarm.tick_with_flow_field_movement(
        Tick(10),
        WorldPosition { x_mm: 0, y_mm: 0 },
        2,
        SWARM_MOVEMENT_PREVIEW_CELL_SIZE_MM,
        1,
    );
    let delta = swarm.build_interest_delta_snapshot(
        PlayerSessionId(9),
        AoiRegion::new(SpatialCell { x: 0, y: 0 }, 16),
        9,
        8,
        Tick(10),
        SWARM_MOVEMENT_PREVIEW_CELL_SIZE_MM,
    );

    assert_eq!(delta.schema, SWARM_SCHEMA);
    assert_eq!(delta.tick, Tick(10));
    assert_eq!(delta.snapshot.snapshot_id, 9);
    assert_eq!(delta.snapshot.baseline_snapshot_id, 8);
    assert_eq!(delta.visible_entity_count, 2);
    assert_eq!(delta.removed_entity_count, 0);
    assert!(delta.aggregate_far_state_count <= 1);
    assert_eq!(
        delta.visible_entity_ids.iter().copied().collect::<BTreeSet<_>>(),
        movement
            .movement_report
            .samples
            .iter()
            .map(|sample| sample.entity_id)
            .collect::<BTreeSet<_>>()
    );
    for sample in &movement.movement_report.samples {
        assert!(delta.snapshot.entities.iter().any(|entity| {
            entity.entity_id == sample.entity_id
                && entity.position == sample.final_position
                && entity.entity_kind == SWARM_ENTITY_KIND
        }));
    }
    assert_eq!(delta.claim_scope, "swarm_movement_delta_snapshot_local");
}

#[test]
fn batch_movement_tick_snapshots_contain_moved_swarm_positions() {
    let mut swarm =
        SwarmState::new(config(), spawn_points(), EntityId(598)).expect("valid swarm");

    let movement = swarm.tick_with_batch_flow_field_movement(
        Tick(10),
        WorldPosition { x_mm: 0, y_mm: 0 },
        2,
        SWARM_MOVEMENT_PREVIEW_CELL_SIZE_MM,
        1,
    );
    let snapshot = swarm.build_full_snapshot(10, Tick(10));
    let delta = swarm.build_interest_delta_snapshot(
        PlayerSessionId(10),
        AoiRegion::new(SpatialCell { x: 0, y: 0 }, 16),
        11,
        10,
        Tick(10),
        SWARM_MOVEMENT_PREVIEW_CELL_SIZE_MM,
    );

    assert_eq!(
        movement.movement_report.claim_scope,
        "swarm_batch_movement_apply_opt_in"
    );
    assert_eq!(
        snapshot.entities.len(),
        movement.movement_report.sample_count
    );
    assert_eq!(
        delta.visible_entity_count,
        movement.movement_report.sample_count
    );
    for sample in &movement.movement_report.samples {
        assert!(snapshot.entities.iter().any(|entity| {
            entity.entity_id == sample.entity_id
                && entity.position == sample.final_position
                && entity.entity_kind == SWARM_ENTITY_KIND
        }));
        assert!(delta.snapshot.entities.iter().any(|entity| {
            entity.entity_id == sample.entity_id
                && entity.position == sample.final_position
                && entity.entity_kind == SWARM_ENTITY_KIND
        }));
    }
    assert!(estimate_snapshot_bytes(&snapshot) > SNAPSHOT_HEADER_BYTES);
    assert_eq!(delta.claim_scope, "swarm_movement_delta_snapshot_local");
}

#[test]
fn swarm_exports_collision_bodies_for_future_collision_pipeline() {
    let mut swarm =
        SwarmState::new(config(), spawn_points(), EntityId(600)).expect("valid swarm");

    swarm.tick(Tick(10));
    let bodies = swarm.collision_bodies();

    assert_eq!(bodies.len(), 2);
    assert_eq!(bodies[0].entity_id, EntityId(600));
    assert_eq!(bodies[0].kind, CollisionBodyKind::Swarm);
    assert_eq!(bodies[0].radius_mm, config().collision_radius_mm);
    assert_eq!(bodies[1].entity_id, EntityId(601));
}

#[test]
fn swarm_configured_movement_loop_measurement_records_percentiles() {
    let run = run_swarm_configured_movement_loop_measurement(
        SWARM_CONFIGURED_MOVEMENT_MEASUREMENT_SAMPLE_COUNT,
    );

    assert_eq!(
        run.sample_count,
        SWARM_CONFIGURED_MOVEMENT_MEASUREMENT_SAMPLE_COUNT
    );
    assert_eq!(
        run.tick_count_per_sample,
        SWARM_CONFIGURED_MOVEMENT_LOOP_TICK_COUNT
    );
    assert_eq!(
        run.movement_sample_limit,
        SWARM_CONFIGURED_MOVEMENT_LOOP_SAMPLE_COUNT
    );
    assert_eq!(run.active_count, 1_000);
    assert_eq!(run.spawned_count_total, 0);
    assert!(run.elapsed_us_min > 0);
    assert!(run.elapsed_us_min <= run.elapsed_us_p50);
    assert!(run.elapsed_us_p50 <= run.elapsed_us_p95);
    assert!(run.elapsed_us_p95 <= run.elapsed_us_p99);
    assert!(run.elapsed_us_p99 <= run.elapsed_us_max);
    assert_eq!(
        run.movement_sample_count_total,
        run.sample_count
            * SWARM_CONFIGURED_MOVEMENT_LOOP_SAMPLE_COUNT
            * SWARM_CONFIGURED_MOVEMENT_LOOP_TICK_COUNT as usize
    );
    assert!(run.applied_delta_count_total > 0);
    assert!(run.physics_iterations_run_total > 0);
    assert_eq!(
        run.flow_field_cache_request_count_total,
        run.movement_sample_count_total as u64
    );
    assert!(run.flow_field_cache_hit_count_total > 0);
    assert_eq!(run.flow_field_cache_eviction_count_total, 0);
    assert!(run.flow_field_cache_entry_count_max <= SWARM_FLOW_FIELD_CACHE_ENTRY_LIMIT);
    assert!(run.moved_entity_count_min > 0);
    assert_eq!(run.budget_result, BudgetResult::Blocked);
    assert_eq!(run.claim_scope, "local_measured_harness_only");
    println!(
        "swarm_configured_movement_loop_measurement samples={} active={} p50_us={} p95_us={} p99_us={} budget_result=blocked",
        run.sample_count,
        run.active_count,
        run.elapsed_us_p50,
        run.elapsed_us_p95,
        run.elapsed_us_p99
    );
}

#[test]
fn swarm_batch_vs_single_movement_loop_measurement_records_comparison() {
    let run = run_swarm_batch_vs_single_movement_loop_measurement(
        SWARM_CONFIGURED_MOVEMENT_MEASUREMENT_SAMPLE_COUNT,
    );

    assert_eq!(
        run.sample_count,
        SWARM_CONFIGURED_MOVEMENT_MEASUREMENT_SAMPLE_COUNT
    );
    assert_eq!(
        run.tick_count_per_sample,
        SWARM_CONFIGURED_MOVEMENT_LOOP_TICK_COUNT
    );
    assert_eq!(
        run.movement_sample_limit,
        SWARM_CONFIGURED_MOVEMENT_LOOP_SAMPLE_COUNT
    );
    assert_eq!(run.active_count, 1_000);
    assert!(run.single_elapsed_us_p50 > 0);
    assert!(run.single_elapsed_us_p50 <= run.single_elapsed_us_p95);
    assert!(run.single_elapsed_us_p95 <= run.single_elapsed_us_p99);
    assert!(run.batch_elapsed_us_p50 > 0);
    assert!(run.batch_elapsed_us_p50 <= run.batch_elapsed_us_p95);
    assert!(run.batch_elapsed_us_p95 <= run.batch_elapsed_us_p99);
    assert!(run.batch_to_single_elapsed_p95_bps > 0);
    assert_eq!(
        run.single_movement_sample_count_total,
        run.sample_count
            * SWARM_CONFIGURED_MOVEMENT_LOOP_SAMPLE_COUNT
            * SWARM_CONFIGURED_MOVEMENT_LOOP_TICK_COUNT as usize
    );
    assert_eq!(
        run.batch_movement_sample_count_total,
        run.single_movement_sample_count_total
    );
    assert!(run.single_applied_delta_count_total > 0);
    assert!(run.batch_applied_delta_count_total > 0);
    assert!(run.single_physics_iterations_run_total > 0);
    assert!(run.batch_physics_iterations_run_total > 0);
    assert!(run.single_flow_field_cache_hit_count_total > 0);
    assert!(run.batch_flow_field_cache_hit_count_total > 0);
    assert_eq!(run.single_flow_field_cache_eviction_count_total, 0);
    assert_eq!(run.batch_flow_field_cache_eviction_count_total, 0);
    assert!(run.single_moved_entity_count_min > 0);
    assert!(run.batch_moved_entity_count_min > 0);
    assert_eq!(run.budget_result, BudgetResult::Blocked);
    assert_eq!(
        run.claim_scope,
        "local_batch_vs_single_measured_harness_only"
    );
    println!(
        "swarm_batch_vs_single_movement_loop_measurement samples={} active={} single_p95_us={} batch_p95_us={} batch_to_single_p95_bps={} budget_result=blocked",
        run.sample_count,
        run.active_count,
        run.single_elapsed_us_p95,
        run.batch_elapsed_us_p95,
        run.batch_to_single_elapsed_p95_bps
    );
}

#[test]
fn local_scale_smoke_config_is_bounded_for_one_thousand_swarm() {
    let config = SwarmConfig::local_scale_smoke();
    let mut swarm = SwarmState::new(
        config,
        vec![SwarmSpawnPoint {
            spawn_id: 1,
            position: WorldPosition { x_mm: 0, y_mm: 0 },
            route_target: WorldPosition {
                x_mm: 100_000,
                y_mm: 0,
            },
        }],
        EntityId(1),
    )
    .expect("valid smoke swarm");

    for tick in 0..250 {
        swarm.tick(Tick(tick));
    }

    assert_eq!(swarm.active_count(), 1_000);
    assert_eq!(swarm.spawned_total(), 1_000);
}

#[test]
fn percentile_nearest_rank_picks_the_ceiling_rank() {
    let values = vec![10, 20, 30, 40, 50];
    assert_eq!(percentile_nearest_rank(&values, 50), 30);
    assert_eq!(percentile_nearest_rank(&values, 95), 50);
    assert_eq!(percentile_nearest_rank(&values, 99), 50);
    assert_eq!(percentile_nearest_rank(&values, 0), 10);
    assert_eq!(percentile_nearest_rank(&values, 20), 10);
    assert_eq!(percentile_nearest_rank(&values, 21), 20);
    assert_eq!(percentile_nearest_rank(&Vec::new(), 50), 0);
    assert_eq!(percentile_nearest_rank(&vec![7], 99), 7);
}

#[test]
fn changed_visible_entity_count_compares_positions_by_id() {
    let mut swarm =
        SwarmState::new(config(), spawn_points(), EntityId(610)).expect("valid swarm");
    swarm.tick(Tick(10));
    let baseline = swarm.build_full_snapshot(1, Tick(10));
    assert_eq!(changed_visible_entity_count(&baseline, &baseline), 0);
    swarm.apply_flow_field_movement_step(
        Tick(10),
        WorldPosition { x_mm: 0, y_mm: 0 },
        1,
        SWARM_MOVEMENT_PREVIEW_CELL_SIZE_MM,
        1,
    );
    let moved = swarm.build_full_snapshot(2, Tick(10));
    assert_eq!(changed_visible_entity_count(&baseline, &moved), 1);
    let empty = swarm.build_interest_delta_snapshot(
        PlayerSessionId(3),
        AoiRegion::new(SpatialCell { x: 100, y: 100 }, 1),
        3,
        2,
        Tick(10),
        SWARM_MOVEMENT_PREVIEW_CELL_SIZE_MM,
    );
    assert_eq!(empty.visible_entity_count, 0);
    assert!(empty.visible_entity_ids.is_empty());
    assert_eq!(changed_visible_entity_count(&baseline, &empty.snapshot), 0);
}

#[test]
fn can_tick_reports_room_in_the_counters() {
    let swarm = SwarmState::new(config(), spawn_points(), EntityId(620)).expect("valid swarm");
    assert!(swarm.can_tick(Tick(10)));
    assert!(swarm.can_tick(Tick(11)));
}

#[test]
fn measurement_setup_spawns_the_local_smoke_swarm() {
    let mut swarm = SwarmState::new(
        SwarmConfig::local_scale_smoke(),
        spawn_points(),
        EntityId(50_000),
    )
    .expect("valid smoke swarm");
    prepare_swarm_movement_measurement_base(&mut swarm);
    assert_eq!(swarm.active_count(), 1_000);
    assert_eq!(swarm.spawned_total(), 1_000);
}

#[test]
fn movement_preview_leaves_the_swarm_unchanged() {
    let mut swarm =
        SwarmState::new(config(), spawn_points(), EntityId(630)).expect("valid swarm");
    swarm.tick(Tick(10));
    let before = swarm.active_entities().to_vec();
    let report = swarm.movement_preview(Tick(10), WorldPosition { x_mm: 0, y_mm: 0 }, 5, SWARM_MOVEMENT_PREVIEW_CELL_SIZE_MM);
    assert_eq!(report.sample_count, 2);
    assert_eq!(report.applied_delta_count + report.blocked_delta_count, 2);
    assert_eq!(swarm.active_entities().to_vec(), before);
}
