use vstd::prelude::*;

use crate::arith::{clamp_i32, clamp_u64, sat_add_i32, sat_sub_i32};
use crate::collision::{
    all_radii_positive, body_of, ids_increasing, clamp_usize, overlap_contacts, resolution_trace, batch_final_world, batch_result, body_map, decision_for, delta_between, has_body, index_of, inserted_map,
    resolved_delta_of, resolved_position_of, resolved_result, resolved_stats,
    CollisionBatchMovementCandidate, CollisionBody, CollisionBodyKind, CollisionMovementDecision, CollisionPhysicsStep,
    CollisionWorld,
};
use crate::map_data::{map_validation, validate_map_data_import, MapDataImport, MapDataValidationError, MapShape};
use crate::movement_scale::{
    flow_step, in_bounds, blocked_keys_match, insert_key, keys_equal, keys_less, lemma_lex_u64_order, lemma_lex_u64_total,
    lex_less_u64, FlowFieldBounds, FlowFieldMap, FlowFieldStep, FlowFieldStepResult,
};
use crate::simulation::{cell_for, cell_key, cell_key_of, cell_of, lemma_cell_key, SpatialCell};
use crate::sorted::{lemma_insert_keeps_increasing, lower_bound, strictly_increasing};
use crate::simulation::{EntityId, EntityState, MovementDelta, Snapshot, SnapshotBuilder, Tick, WorldPosition};
use crate::simulation::{ids_in_cell, EntityColumns, PlayerSessionId, SpatialGrid};
use crate::collision::{clock_now, duration_micros, elapsed_since};
use crate::perf_budget::BudgetResult;
use crate::interest::{
    build_interest_snapshot_delta, entities_for_ids, far_states, ids_sorted, last_entity, region_contains, region_in_range,
    AoiRegion, InterestManager,
};

verus! {

pub const SWARM_SCHEMA: &'static str = "millions_swarm_v0";

pub const SWARM_ENTITY_KIND: u16 = 200;

pub const SWARM_RESOLVED_ADMISSION_SAMPLE_COUNT: usize = 4;

pub const SWARM_MOVEMENT_PREVIEW_CELL_SIZE_MM: i32 = 2_000;

pub const SWARM_MAP_OBSTACLE_ENTITY_ID_BASE: u64 = 9_000_000_000;

/// The cell size of the collision worlds that swarm movement runs in.
pub const SWARM_COLLISION_CELL_SIZE_MM: i32 = 2_000;

/// Ticks run by each sample of the configured movement loop measurement.
pub const SWARM_CONFIGURED_MOVEMENT_LOOP_TICK_COUNT: u64 = 2;

/// Zombies moved per tick in the configured movement loop measurement.
pub const SWARM_CONFIGURED_MOVEMENT_LOOP_SAMPLE_COUNT: usize = 2;

/// Spawn ticks run to set up the swarm that the movement measurements start from.
pub const SWARM_MEASUREMENT_SETUP_TICK_COUNT: u64 = 250;

#[derive(Debug, Clone, Copy, PartialEq, Eq, Structural)]
pub enum SwarmMovementMode {
    SpawnOnly,
    FlowFieldCollision,
    BatchFlowFieldCollision,
}

#[derive(Debug, Clone, Copy, PartialEq, Eq, Structural)]
pub struct SwarmConfig {
    pub start_tick: Tick,
    pub spawn_interval_ticks: u64,
    pub spawn_batch_size: usize,
    pub max_active: usize,
    pub route_pressure_radius_mm: i32,
    pub collision_radius_mm: i32,
    pub direct_aggro_ticks: u64,
    pub aggro_memory_ticks: u64,
    pub full_lod_distance_mm: i32,
    pub reduced_lod_distance_mm: i32,
    pub movement_mode: SwarmMovementMode,
    pub movement_sample_limit: usize,
    pub movement_cell_size_mm: i32,
    pub movement_physics_iterations: usize,
    pub movement_correction_limit_abs_mm: Option<u32>,
}

impl SwarmConfig {
    /// The local smoke configuration: a thousand zombies spawned 32 at a time every 5 ticks
    /// from tick 20, without movement.
    pub fn local_scale_smoke() -> (r: Self)
        ensures
            r == (SwarmConfig {
                start_tick: Tick(20),
                spawn_interval_ticks: 5,
                spawn_batch_size: 32,
                max_active: 1_000,
                route_pressure_radius_mm: 10_000,
                collision_radius_mm: 350,
                direct_aggro_ticks: 20,
                aggro_memory_ticks: 120,
                full_lod_distance_mm: 20_000,
                reduced_lod_distance_mm: 80_000,
                movement_mode: SwarmMovementMode::SpawnOnly,
                movement_sample_limit: SWARM_RESOLVED_ADMISSION_SAMPLE_COUNT,
                movement_cell_size_mm: SWARM_MOVEMENT_PREVIEW_CELL_SIZE_MM,
                movement_physics_iterations: 1,
                movement_correction_limit_abs_mm: None,
            }),
    {
        Self {
            start_tick: Tick(20),
            spawn_interval_ticks: 5,
            spawn_batch_size: 32,
            max_active: 1_000,
            route_pressure_radius_mm: 10_000,
            collision_radius_mm: 350,
            direct_aggro_ticks: 20,
            aggro_memory_ticks: 120,
            full_lod_distance_mm: 20_000,
            reduced_lod_distance_mm: 80_000,
            movement_mode: SwarmMovementMode::SpawnOnly,
            movement_sample_limit: SWARM_RESOLVED_ADMISSION_SAMPLE_COUNT,
            movement_cell_size_mm: SWARM_MOVEMENT_PREVIEW_CELL_SIZE_MM,
            movement_physics_iterations: 1,
            movement_correction_limit_abs_mm: None,
        }
    }

    pub fn with_flow_field_collision_movement(self, sample_limit: usize, cell_size_mm: i32, physics_iterations: usize) -> (r: Self)
        ensures
            r == (SwarmConfig {
                movement_mode: SwarmMovementMode::FlowFieldCollision,
                movement_sample_limit: sample_limit,
                movement_cell_size_mm: cell_size_mm,
                movement_physics_iterations: physics_iterations,
                movement_correction_limit_abs_mm: None,
                ..self
            }),
    {
        let mut c = self;
        c.movement_mode = SwarmMovementMode::FlowFieldCollision;
        c.movement_sample_limit = sample_limit;
        c.movement_cell_size_mm = cell_size_mm;
        c.movement_physics_iterations = physics_iterations;
        c.movement_correction_limit_abs_mm = None;
        c
    }

    pub fn with_batch_flow_field_collision_movement(self, sample_limit: usize, cell_size_mm: i32, physics_iterations: usize) -> (r: Self)
        ensures
            r == (SwarmConfig {
                movement_mode: SwarmMovementMode::BatchFlowFieldCollision,
                movement_sample_limit: sample_limit,
                movement_cell_size_mm: cell_size_mm,
                movement_physics_iterations: physics_iterations,
                movement_correction_limit_abs_mm: None,
                ..self
            }),
    {
        let mut c = self;
        c.movement_mode = SwarmMovementMode::BatchFlowFieldCollision;
        c.movement_sample_limit = sample_limit;
        c.movement_cell_size_mm = cell_size_mm;
        c.movement_physics_iterations = physics_iterations;
        c.movement_correction_limit_abs_mm = None;
        c
    }

    pub fn with_flow_field_collision_movement_correction_limit(self, correction_limit_abs_mm: u32) -> (r: Self)
        ensures
            r == (SwarmConfig { movement_correction_limit_abs_mm: Some(correction_limit_abs_mm), ..self }),
    {
        let mut c = self;
        c.movement_correction_limit_abs_mm = Some(correction_limit_abs_mm);
        c
    }
}

#[derive(Debug, Clone, Copy, PartialEq, Eq, Structural)]
pub struct SwarmSpawnPoint {
    pub spawn_id: u16,
    pub position: WorldPosition,
    pub route_target: WorldPosition,
}

#[derive(Debug, Clone, Copy, PartialEq, Eq, Structural)]
pub struct SwarmEntity {
    pub entity_id: EntityId,
    pub spawned_tick: Tick,
    pub position: WorldPosition,
    pub route_target: WorldPosition,
    pub collision_radius_mm: i32,
}

pub open spec fn entity_body(entity: SwarmEntity) -> CollisionBody {
    CollisionBody {
        entity_id: entity.entity_id,
        kind: CollisionBodyKind::Swarm,
        position: entity.position,
        radius_mm: entity.collision_radius_mm,
    }
}

impl SwarmEntity {
    pub fn collision_body(self) -> (r: CollisionBody)
        ensures
            r == entity_body(self),
    {
        CollisionBody {
            entity_id: self.entity_id,
            kind: CollisionBodyKind::Swarm,
            position: self.position,
            radius_mm: self.collision_radius_mm,
        }
    }
}

#[derive(Debug, Clone, Copy, PartialEq, Eq, Structural)]
pub struct RoutePressureSample {
    pub target_position: WorldPosition,
    pub active_entity_count: usize,
    pub radius_mm: i32,
    pub nearest_distance_sq_mm: u64,
    pub farthest_distance_sq_mm: u64,
}

#[derive(Debug, Clone, Copy, PartialEq, Eq, Structural)]
pub enum SwarmError {
    EmptySpawnPoints,
    InvalidSpawnInterval,
    InvalidSpawnBatchSize,
    InvalidMaxActive,
    InvalidRoutePressureRadius,
    InvalidCollisionRadius,
    InvalidAggroWindow,
    InvalidLodDistance,
    InvalidMovementSampleLimit,
    InvalidMovementCellSize,
    InvalidMovementPhysicsIterations,
    InvalidStaticObstacle,
    InvalidMapData(MapDataValidationError),
}

#[derive(Debug, Clone, Copy, PartialEq, Eq, Structural)]
pub struct AggroStimulus {
    pub source_entity_id: EntityId,
    pub position: WorldPosition,
    pub tick: Tick,
    pub strength: u16,
}

#[derive(Debug, Clone, Copy, PartialEq, Eq, Structural)]
pub enum AggroTrailLane {
    Direct,
    Memory,
}

#[derive(Debug, Clone, Copy, PartialEq, Eq, Structural)]
pub struct AggroTrailSample {
    pub source_entity_id: EntityId,
    pub position: WorldPosition,
    pub last_seen_tick: Tick,
    pub age_ticks: u64,
    pub strength: u16,
    pub lane: AggroTrailLane,
}

#[derive(Debug, Clone, Copy, PartialEq, Eq, Structural)]
pub enum SwarmAiLod {
    Full,
    Reduced,
    Aggregate,
}

#[derive(Debug, Clone, Copy, PartialEq, Eq, Structural)]
pub enum SwarmIntentKind {
    RoutePressure,
    AggroDirect,
    AggroMemory,
}

#[derive(Debug, Clone, Copy, PartialEq, Eq, Structural)]
pub struct SwarmBehaviorSample {
    pub entity_id: EntityId,
    pub intent_kind: SwarmIntentKind,
    pub intent_target: WorldPosition,
    pub ai_lod: SwarmAiLod,
}

#[derive(Debug, Clone, Copy, PartialEq, Eq, Structural)]
pub struct SwarmAiLodCounts {
    pub full: usize,
    pub reduced: usize,
    pub aggregate: usize,
}

#[derive(Debug, Clone, PartialEq, Eq)]
pub struct SwarmBehaviorReport {
    pub schema: &'static str,
    pub tick: Tick,
    pub focus: WorldPosition,
    pub samples: Vec<SwarmBehaviorSample>,
    pub lod_counts: SwarmAiLodCounts,
}

#[derive(Debug, Clone, Copy, PartialEq, Eq, Structural)]
pub struct SwarmMovementPreviewSample {
    pub entity_id: EntityId,
    pub intent_kind: SwarmIntentKind,
    pub from_position: WorldPosition,
    pub intent_target: WorldPosition,
    pub flow_field_result: FlowFieldStepResult,
    pub requested_delta: MovementDelta,
    pub resolved_delta: MovementDelta,
    pub collision_decision: CollisionMovementDecision,
    pub collision_iterations_run: usize,
    pub collision_applied_correction_count: usize,
}

#[derive(Debug, Clone, PartialEq, Eq)]
pub struct SwarmMovementPreviewReport {
    pub schema: &'static str,
    pub tick: Tick,
    pub sample_count: usize,
    pub flow_field_build_count: usize,
    pub flow_field_query_count: usize,
    pub flow_field_unreachable_count: usize,
    pub physics_candidate_count: usize,
    pub physics_initial_contact_count: usize,
    pub physics_iterations_run: usize,
    pub physics_applied_correction_count: usize,
    pub physics_applied_correction_abs_mm_total: u64,
    pub physics_max_applied_correction_abs_mm: u32,
    pub physics_final_contact_count: usize,
    pub applied_delta_count: usize,
    pub corrected_delta_count: usize,
    pub blocked_delta_count: usize,
    pub samples: Vec<SwarmMovementPreviewSample>,
    pub claim_scope: &'static str,
}

#[derive(Debug, Clone, Copy, PartialEq, Eq, Structural)]
pub struct SwarmMovementApplySample {
    pub entity_id: EntityId,
    pub intent_kind: SwarmIntentKind,
    pub from_position: WorldPosition,
    pub intent_target: WorldPosition,
    pub flow_field_result: FlowFieldStepResult,
    pub requested_delta: MovementDelta,
    pub applied_delta: MovementDelta,
    pub collision_decision: CollisionMovementDecision,
    pub final_position: WorldPosition,
}

#[derive(Debug, Clone, PartialEq, Eq)]
pub struct SwarmMovementApplyReport {
    pub schema: &'static str,
    pub tick: Tick,
    pub sample_count: usize,
    pub flow_field_build_count: usize,
    pub flow_field_cache_request_count: u64,
    pub flow_field_cache_hit_count: u64,
    pub flow_field_cache_eviction_count: u64,
    pub flow_field_cache_entry_count: usize,
    pub flow_field_query_count: usize,
    pub flow_field_unreachable_count: usize,
    pub applied_delta_count: usize,
    pub corrected_delta_count: usize,
    pub blocked_delta_count: usize,
    pub movement_probe_correction_limit_abs_mm: Option<u32>,
    pub movement_probe_clamped_correction_count: usize,
    pub physics_candidate_count: usize,
    pub physics_initial_contact_count: usize,
    pub physics_iterations_run: usize,
    pub physics_applied_correction_count: usize,
    pub physics_applied_correction_abs_mm_total: u64,
    pub physics_max_applied_correction_abs_mm: u32,
    pub physics_correction_limit_abs_mm: Option<u32>,
    pub physics_clamped_correction_count: usize,
    pub physics_final_contact_count: usize,
    pub physics_synced_position_count: usize,
    pub physics_sample_synced_position_count: usize,
    pub samples: Vec<SwarmMovementApplySample>,
    pub claim_scope: &'static str,
}

#[derive(Debug, Clone, PartialEq, Eq)]
pub struct SwarmTickReport {
    pub schema: &'static str,
    pub tick: Tick,
    pub spawned_entity_ids: Vec<EntityId>,
    pub active_count: usize,
    pub spawn_capped: bool,
    pub route_pressure: Vec<RoutePressureSample>,
    pub aggro_trails: Vec<AggroTrailSample>,
    pub movement: Option<SwarmMovementApplyReport>,
}

/// The first failed check of a swarm configuration with its spawn point count, in the order
/// the checks are made.
pub open spec fn config_error(config: SwarmConfig, spawn_point_count: nat) -> Option<SwarmError> {
    if spawn_point_count == 0 {
        Some(SwarmError::EmptySpawnPoints)
    } else if config.spawn_interval_ticks == 0 {
        Some(SwarmError::InvalidSpawnInterval)
    } else if config.spawn_batch_size == 0 {
        Some(SwarmError::InvalidSpawnBatchSize)
    } else if config.max_active == 0 {
        Some(SwarmError::InvalidMaxActive)
    } else if config.route_pressure_radius_mm <= 0 {
        Some(SwarmError::InvalidRoutePressureRadius)
    } else if config.collision_radius_mm <= 0 {
        Some(SwarmError::InvalidCollisionRadius)
    } else if config.direct_aggro_ticks > config.aggro_memory_ticks {
        Some(SwarmError::InvalidAggroWindow)
    } else if config.full_lod_distance_mm <= 0 || config.reduced_lod_distance_mm <= config.full_lod_distance_mm {
        Some(SwarmError::InvalidLodDistance)
    } else if config.movement_mode != SwarmMovementMode::SpawnOnly && config.movement_sample_limit == 0 {
        Some(SwarmError::InvalidMovementSampleLimit)
    } else if config.movement_mode != SwarmMovementMode::SpawnOnly && config.movement_cell_size_mm <= 0 {
        Some(SwarmError::InvalidMovementCellSize)
    } else if config.movement_mode != SwarmMovementMode::SpawnOnly && config.movement_physics_iterations == 0 {
        Some(SwarmError::InvalidMovementPhysicsIterations)
    } else {
        None
    }
}

pub open spec fn entity_ids_increasing(s: Seq<SwarmEntity>) -> bool {
    forall|i: int, j: int| 0 <= i < j < s.len() ==> s[i].entity_id.0 < s[j].entity_id.0
}

pub open spec fn stimuli_increasing(s: Seq<AggroStimulus>) -> bool {
    forall|i: int, j: int| 0 <= i < j < s.len() ==> s[i].source_entity_id.0 < s[j].source_entity_id.0
}

/// Squared distance between two positions, computed exactly and then truncated to 64 bits.
pub open spec fn swarm_distance_sq(from: WorldPosition, to: WorldPosition) -> u64 {
    ((to.x_mm - from.x_mm) * (to.x_mm - from.x_mm) + (to.y_mm - from.y_mm) * (to.y_mm - from.y_mm)) as u64
}

#[verifier::truncate]
fn distance_sq_mm(from: WorldPosition, to: WorldPosition) -> (r: u64)
    ensures
        r == swarm_distance_sq(from, to),
{
    let dx = to.x_mm as i128 - from.x_mm as i128;
    let dy = to.y_mm as i128 - from.y_mm as i128;
    assert(0 <= dx * dx <= 0x1_0000_0000 * 0x1_0000_0000) by (nonlinear_arith)
        requires
            -0x1_0000_0000 <= dx <= 0x1_0000_0000,
    ;
    assert(0 <= dy * dy <= 0x1_0000_0000 * 0x1_0000_0000) by (nonlinear_arith)
        requires
            -0x1_0000_0000 <= dy <= 0x1_0000_0000,
    ;
    #[verifier::truncate]
    ((dx * dx + dy * dy) as u64)
}

/// The level of detail of an entity by its distance to the focus.
pub open spec fn lod_for(config: SwarmConfig, position: WorldPosition, focus: WorldPosition) -> SwarmAiLod {
    let d = swarm_distance_sq(position, focus);
    if d <= config.full_lod_distance_mm * config.full_lod_distance_mm {
        SwarmAiLod::Full
    } else if d <= config.reduced_lod_distance_mm * config.reduced_lod_distance_mm {
        SwarmAiLod::Reduced
    } else {
        SwarmAiLod::Aggregate
    }
}

/// The trail sample of a stimulus at a tick: direct while fresh, remembered for longer, gone
/// after that or before the stimulus.
pub open spec fn aggro_sample(config: SwarmConfig, tick: Tick, stimulus: AggroStimulus) -> Option<AggroTrailSample> {
    if tick.0 < stimulus.tick.0 {
        None
    } else {
        let age = (tick.0 - stimulus.tick.0) as u64;
        if age <= config.direct_aggro_ticks {
            Some(AggroTrailSample {
                source_entity_id: stimulus.source_entity_id,
                position: stimulus.position,
                last_seen_tick: stimulus.tick,
                age_ticks: age,
                strength: stimulus.strength,
                lane: AggroTrailLane::Direct,
            })
        } else if age <= config.aggro_memory_ticks {
            Some(AggroTrailSample {
                source_entity_id: stimulus.source_entity_id,
                position: stimulus.position,
                last_seen_tick: stimulus.tick,
                age_ticks: age,
                strength: stimulus.strength,
                lane: AggroTrailLane::Memory,
            })
        } else {
            None
        }
    }
}

/// The live trail samples of the stimuli, in stimulus order.
pub open spec fn aggro_samples(config: SwarmConfig, tick: Tick, trails: Seq<AggroStimulus>) -> Seq<AggroTrailSample>
    decreases trails.len(),
{
    if trails.len() == 0 {
        Seq::empty()
    } else {
        let prev = aggro_samples(config, tick, trails.drop_last());
        match aggro_sample(config, tick, trails.last()) {
            Some(s) => prev.push(s),
            None => prev,
        }
    }
}

/// The order in which trail samples are preferred: direct before memory, stronger first,
/// then fresher, then by source id.
pub open spec fn aggro_key_less(a: AggroTrailSample, b: AggroTrailSample) -> bool {
    let ra: int = if a.lane == AggroTrailLane::Direct { 0 } else { 1 };
    let rb: int = if b.lane == AggroTrailLane::Direct { 0 } else { 1 };
    let sa = 65535 - a.strength;
    let sb = 65535 - b.strength;
    ra < rb || (ra == rb && (sa < sb || (sa == sb && (a.age_ticks < b.age_ticks || (a.age_ticks == b.age_ticks
        && a.source_entity_id.0 < b.source_entity_id.0)))))
}

/// The preferred sample: the first one with the least key.
pub open spec fn best_sample(samples: Seq<AggroTrailSample>) -> Option<AggroTrailSample>
    decreases samples.len(),
{
    if samples.len() == 0 {
        None
    } else {
        match best_sample(samples.drop_last()) {
            None => Some(samples.last()),
            Some(b) => if aggro_key_less(samples.last(), b) {
                Some(samples.last())
            } else {
                Some(b)
            },
        }
    }
}

/// What an entity does: follow the preferred aggro trail, else press along its route.
pub open spec fn behavior_sample(config: SwarmConfig, best: Option<AggroTrailSample>, entity: SwarmEntity, focus: WorldPosition) -> SwarmBehaviorSample {
    SwarmBehaviorSample {
        entity_id: entity.entity_id,
        intent_kind: match best {
            Some(s) => if s.lane == AggroTrailLane::Direct {
                SwarmIntentKind::AggroDirect
            } else {
                SwarmIntentKind::AggroMemory
            },
            None => SwarmIntentKind::RoutePressure,
        },
        intent_target: match best {
            Some(s) => s.position,
            None => entity.route_target,
        },
        ai_lod: lod_for(config, entity.position, focus),
    }
}

/// How many entities are at a level of detail.
pub open spec fn lod_count(config: SwarmConfig, active: Seq<SwarmEntity>, focus: WorldPosition, lod: SwarmAiLod) -> nat
    decreases active.len(),
{
    if active.len() == 0 {
        0
    } else {
        lod_count(config, active.drop_last(), focus, lod) + if lod_for(config, active.last().position, focus) == lod {
            1nat
        } else {
            0nat
        }
    }
}

pub open spec fn swarm_entity_state(entity: SwarmEntity) -> EntityState {
    EntityState {
        entity_id: entity.entity_id,
        entity_kind: SWARM_ENTITY_KIND,
        faction_id: 0,
        flags: 1,
        position: entity.position,
        facing_millirad: 0,
        health_q8: 256,
        state_id: 1,
        state_param_q8: 0,
    }
}

// ---------------------------------------------------------------------------------------------
// Spawning
// ---------------------------------------------------------------------------------------------

/// Whether a tick is a spawn tick with room left: on the start tick and every interval
/// after it, while fewer than the maximum are active.
pub open spec fn spawn_due(config: SwarmConfig, active_len: nat, tick: Tick) -> bool {
    &&& tick.0 >= config.start_tick.0
    &&& (tick.0 - config.start_tick.0) % (config.spawn_interval_ticks as int) == 0
    &&& active_len < config.max_active
}

/// How many entities a tick spawns: a batch, capped by the room left.
pub open spec fn spawn_count(config: SwarmConfig, active_len: nat, tick: Tick) -> nat {
    if spawn_due(config, active_len, tick) {
        let room = (config.max_active - active_len) as nat;
        if config.spawn_batch_size < room {
            config.spawn_batch_size as nat
        } else {
            room
        }
    } else {
        0
    }
}

/// Adds an entity by id: it replaces the last one where that carries the same id.
pub open spec fn insert_entity(active: Seq<SwarmEntity>, entity: SwarmEntity) -> Seq<SwarmEntity> {
    if active.len() > 0 && active.last().entity_id == entity.entity_id {
        active.update(active.len() - 1, entity)
    } else {
        active.push(entity)
    }
}

/// The spawning state: active entities, next id, next spawn point.
pub type SpawnState = (Seq<SwarmEntity>, u64, int);

pub open spec fn spawn_step(config: SwarmConfig, points: Seq<SwarmSpawnPoint>, st: SpawnState, tick: Tick) -> SpawnState {
    let p = points[st.2];
    let e = SwarmEntity {
        entity_id: EntityId(st.1),
        spawned_tick: tick,
        position: p.position,
        route_target: p.route_target,
        collision_radius_mm: config.collision_radius_mm,
    };
    (insert_entity(st.0, e), if st.1 < u64::MAX { (st.1 + 1) as u64 } else { u64::MAX }, (st.2 + 1) % (points.len() as int))
}

/// The state after `k` spawns, each at the next spawn point in turn with the next id.
pub open spec fn spawn_many(config: SwarmConfig, points: Seq<SwarmSpawnPoint>, st: SpawnState, tick: Tick, k: nat) -> SpawnState
    decreases k,
{
    if k == 0 {
        st
    } else {
        spawn_step(config, points, spawn_many(config, points, st, tick, (k - 1) as nat), tick)
    }
}

/// The ids given out by `k` spawns, in order.
pub open spec fn spawned_ids(config: SwarmConfig, points: Seq<SwarmSpawnPoint>, st: SpawnState, tick: Tick, k: nat) -> Seq<EntityId>
    decreases k,
{
    if k == 0 {
        Seq::empty()
    } else {
        spawned_ids(config, points, st, tick, (k - 1) as nat).push(
            EntityId(spawn_many(config, points, st, tick, (k - 1) as nat).1),
        )
    }
}

/// The active entities are ordered by id, each below the next id unless that has reached
/// the top, and carry the configured radius.
pub open spec fn spawn_state_ok(config: SwarmConfig, points: Seq<SwarmSpawnPoint>, st: SpawnState) -> bool {
    &&& entity_ids_increasing(st.0)
    &&& forall|i: int| 0 <= i < st.0.len() ==> (#[trigger] st.0[i]).entity_id.0 < st.1 || st.1 == u64::MAX
    &&& forall|i: int| 0 <= i < st.0.len() ==> (#[trigger] st.0[i]).collision_radius_mm == config.collision_radius_mm
    &&& 0 <= st.2 < points.len()
}

proof fn lemma_spawn_step_ok(config: SwarmConfig, points: Seq<SwarmSpawnPoint>, st: SpawnState, tick: Tick)
    requires
        spawn_state_ok(config, points, st),
    ensures
        spawn_state_ok(config, points, spawn_step(config, points, st, tick)),
        spawn_step(config, points, st, tick).0.len() <= st.0.len() + 1,
{
    let n = spawn_step(config, points, st, tick);
    let s = st.0;
    if s.len() > 0 && s.last().entity_id == EntityId(st.1) {
        assert forall|i: int, j: int| 0 <= i < j < n.0.len() implies n.0[i].entity_id.0 < n.0[j].entity_id.0 by {
            if j == s.len() - 1 {
                assert(s[i].entity_id.0 < s[j].entity_id.0);
            }
        }
    } else {
        assert forall|i: int, j: int| 0 <= i < j < n.0.len() implies n.0[i].entity_id.0 < n.0[j].entity_id.0 by {
            if j == s.len() {
                assert(s[i].entity_id.0 < st.1 || st.1 == u64::MAX);
                if st.1 == u64::MAX && s[i].entity_id.0 == st.1 {
                    if i < s.len() - 1 {
                        assert(s[i].entity_id.0 < s[s.len() - 1].entity_id.0);
                    }
                }
            }
        }
    }
}

proof fn lemma_spawn_many_ok(config: SwarmConfig, points: Seq<SwarmSpawnPoint>, st: SpawnState, tick: Tick, k: nat)
    requires
        spawn_state_ok(config, points, st),
    ensures
        spawn_state_ok(config, points, spawn_many(config, points, st, tick, k)),
        spawn_many(config, points, st, tick, k).0.len() <= st.0.len() + k,
    decreases k,
{
    if k > 0 {
        lemma_spawn_many_ok(config, points, st, tick, (k - 1) as nat);
        lemma_spawn_step_ok(config, points, spawn_many(config, points, st, tick, (k - 1) as nat), tick);
    }
}

// ---------------------------------------------------------------------------------------------
// Route pressure
// ---------------------------------------------------------------------------------------------

pub open spec fn target_less(a: WorldPosition, b: WorldPosition) -> bool {
    a.x_mm < b.x_mm || (a.x_mm == b.x_mm && a.y_mm < b.y_mm)
}

/// How many entities press towards a route target.
pub open spec fn route_count(active: Seq<SwarmEntity>, target: WorldPosition) -> nat
    decreases active.len(),
{
    if active.len() == 0 {
        0
    } else {
        route_count(active.drop_last(), target) + if active.last().route_target == target {
            1nat
        } else {
            0nat
        }
    }
}

/// The least squared distance to a route target among the entities pressing towards it.
pub open spec fn route_nearest(active: Seq<SwarmEntity>, target: WorldPosition) -> u64
    decreases active.len(),
{
    if active.len() == 0 {
        u64::MAX
    } else {
        let prev = route_nearest(active.drop_last(), target);
        let e = active.last();
        if e.route_target == target && swarm_distance_sq(e.position, target) < prev {
            swarm_distance_sq(e.position, target)
        } else {
            prev
        }
    }
}

/// The greatest squared distance to a route target among the entities pressing towards it.
pub open spec fn route_farthest(active: Seq<SwarmEntity>, target: WorldPosition) -> u64
    decreases active.len(),
{
    if active.len() == 0 {
        0
    } else {
        let prev = route_farthest(active.drop_last(), target);
        let e = active.last();
        if e.route_target == target && swarm_distance_sq(e.position, target) > prev {
            swarm_distance_sq(e.position, target)
        } else {
            prev
        }
    }
}

pub open spec fn has_route_target(active: Seq<SwarmEntity>, target: WorldPosition) -> bool {
    exists|i: int| 0 <= i < active.len() && active[i].route_target == target
}

/// The route pressure report: one sample per distinct route target, in target order, with the
/// count and the nearest and farthest squared distance of the entities pressing towards it.
pub open spec fn route_pressure_matches(r: Seq<RoutePressureSample>, active: Seq<SwarmEntity>, radius_mm: i32) -> bool {
    &&& forall|i: int, j: int| 0 <= i < j < r.len() ==> target_less(r[i].target_position, r[j].target_position)
    &&& forall|t: WorldPosition| has_route_target(active, t) <==> exists|i: int| 0 <= i < r.len() && r[i].target_position == t
    &&& forall|i: int|
        0 <= i < r.len() ==> (#[trigger] r[i]) == (RoutePressureSample {
            target_position: r[i].target_position,
            active_entity_count: route_count(active, r[i].target_position) as usize,
            radius_mm,
            nearest_distance_sq_mm: route_nearest(active, r[i].target_position),
            farthest_distance_sq_mm: route_farthest(active, r[i].target_position),
        })
}

proof fn lemma_route_count_bound(active: Seq<SwarmEntity>, target: WorldPosition)
    ensures
        route_count(active, target) <= active.len(),
        route_count(active, target) > 0 <==> has_route_target(active, target),
    decreases active.len(),
{
    if active.len() > 0 {
        let prev = active.drop_last();
        lemma_route_count_bound(prev, target);
        if has_route_target(active, target) {
            let i = choose|i: int| 0 <= i < active.len() && active[i].route_target == target;
            if i < active.len() - 1 {
                assert(prev[i] == active[i]);
            }
        }
        if has_route_target(prev, target) {
            let i = choose|i: int| 0 <= i < prev.len() && prev[i].route_target == target;
            assert(active[i] == prev[i]);
        }
    }
}

/// The body that a map obstacle becomes: at the shape's centre, as wide as its larger half
/// extent, with an id above every swarm id.
pub open spec fn obstacle_body_of_shape(index: int, shape: MapShape) -> CollisionBody {
    CollisionBody {
        entity_id: EntityId(
            if SWARM_MAP_OBSTACLE_ENTITY_ID_BASE + index > u64::MAX {
                u64::MAX
            } else {
                (SWARM_MAP_OBSTACLE_ENTITY_ID_BASE + index) as u64
            },
        ),
        kind: CollisionBodyKind::StaticObstacle,
        position: WorldPosition { x_mm: shape.center.x_mm, y_mm: shape.center.y_mm },
        radius_mm: if shape.half_extents_mm.x_mm >= shape.half_extents_mm.y_mm {
            shape.half_extents_mm.x_mm
        } else {
            shape.half_extents_mm.y_mm
        },
    }
}

pub open spec fn all_static(bodies: Seq<CollisionBody>) -> bool {
    forall|i: int| 0 <= i < bodies.len() ==> (#[trigger] bodies[i]).kind == CollisionBodyKind::StaticObstacle
}

/// A swarm: its configuration and spawn points, the active zombies by id, the static
/// obstacles they move around, and the aggro stimuli they react to, by source.
#[derive(Debug, Clone)]
pub struct SwarmState {
    config: SwarmConfig,
    spawn_points: Vec<SwarmSpawnPoint>,
    active_entities: Vec<SwarmEntity>,
    static_obstacles: CollisionWorld,
    static_obstacle_shapes: Vec<MapShape>,
    flow_field_cache: SwarmFlowFieldCache,
    aggro_trails: Vec<AggroStimulus>,
    next_entity_id: EntityId,
    next_spawn_point_index: usize,
    spawned_total: usize,
}

impl SwarmState {
    pub closed spec fn wf(&self) -> bool {
        &&& config_error(self.config, self.spawn_points@.len()) is None
        &&& spawn_state_ok(
            self.config,
            self.spawn_points@,
            (self.active_entities@, self.next_entity_id.0, self.next_spawn_point_index as int),
        )
        &&& self.static_obstacles.wf()
        &&& self.static_obstacles.spec_cell_size() == SWARM_COLLISION_CELL_SIZE_MM
        &&& all_static(self.static_obstacles.spec_bodies())
        &&& stimuli_increasing(self.aggro_trails@)
        &&& self.flow_field_cache.wf()
    }

    /// The swarm's flow-field cache.
    pub closed spec fn spec_cache(&self) -> SwarmFlowFieldCache {
        self.flow_field_cache
    }

    /// How many flow field requests the swarm's cache has served.
    pub closed spec fn spec_cache_requests(&self) -> u64 {
        self.flow_field_cache.request_count
    }

    pub closed spec fn spec_config(&self) -> SwarmConfig {
        self.config
    }

    pub closed spec fn spec_spawn_points(&self) -> Seq<SwarmSpawnPoint> {
        self.spawn_points@
    }

    /// The active entities, by id.
    pub closed spec fn spec_active(&self) -> Seq<SwarmEntity> {
        self.active_entities@
    }

    /// The static obstacles, by id.
    pub closed spec fn spec_obstacles(&self) -> Seq<CollisionBody> {
        self.static_obstacles.spec_bodies()
    }

    /// The map shapes the static obstacles came from, when they came from a map.
    pub closed spec fn spec_obstacle_shapes(&self) -> Seq<MapShape> {
        self.static_obstacle_shapes@
    }

    /// The latest aggro stimulus of each source, by source id.
    pub closed spec fn spec_aggro(&self) -> Seq<AggroStimulus> {
        self.aggro_trails@
    }

    pub closed spec fn spec_next_id(&self) -> u64 {
        self.next_entity_id.0
    }

    pub closed spec fn spec_next_spawn_index(&self) -> int {
        self.next_spawn_point_index as int
    }

    pub closed spec fn spec_spawned_total(&self) -> nat {
        self.spawned_total as nat
    }

    /// The spawning state of the swarm.
    pub open spec fn spawn_view(&self) -> SpawnState {
        (self.spec_active(), self.spec_next_id(), self.spec_next_spawn_index())
    }

    /// Checks a configuration and its spawn points; a valid pair makes an empty swarm whose
    /// first zombie gets `first_entity_id`.
    pub fn new(config: SwarmConfig, spawn_points: Vec<SwarmSpawnPoint>, first_entity_id: EntityId) -> (r: Result<Self, SwarmError>)
        ensures
            config_error(config, spawn_points@.len()) is Some ==> r == Err::<Self, SwarmError>(
                config_error(config, spawn_points@.len())->Some_0,
            ),
            config_error(config, spawn_points@.len()) is None ==> r is Ok && {
                let s = r->Ok_0;
                &&& s.wf()
                &&& s.spec_config() == config
                &&& s.spec_spawn_points() == spawn_points@
                &&& s.spec_active() == Seq::<SwarmEntity>::empty()
                &&& s.spec_obstacles() == Seq::<CollisionBody>::empty()
                &&& s.spec_obstacle_shapes() == Seq::<MapShape>::empty()
                &&& s.spec_aggro() == Seq::<AggroStimulus>::empty()
                &&& s.spec_next_id() == first_entity_id.0
                &&& s.spec_next_spawn_index() == 0
                &&& s.spec_spawned_total() == 0
                &&& s.spec_cache_requests() == 0
                &&& s.spec_cache().spec_keys().len() == 0
                &&& s.spec_cache().spec_stats() == (SwarmFlowFieldCacheStats {
                    request_count: 0,
                    build_count: 0,
                    hit_count: 0,
                    eviction_count: 0,
                })
            },
    {
        if spawn_points.len() == 0 {
            return Err(SwarmError::EmptySpawnPoints);
        }
        if config.spawn_interval_ticks == 0 {
            return Err(SwarmError::InvalidSpawnInterval);
        }
        if config.spawn_batch_size == 0 {
            return Err(SwarmError::InvalidSpawnBatchSize);
        }
        if config.max_active == 0 {
            return Err(SwarmError::InvalidMaxActive);
        }
        if config.route_pressure_radius_mm <= 0 {
            return Err(SwarmError::InvalidRoutePressureRadius);
        }
        if config.collision_radius_mm <= 0 {
            return Err(SwarmError::InvalidCollisionRadius);
        }
        if config.direct_aggro_ticks > config.aggro_memory_ticks {
            return Err(SwarmError::InvalidAggroWindow);
        }
        if config.full_lod_distance_mm <= 0 || config.reduced_lod_distance_mm <= config.full_lod_distance_mm {
            return Err(SwarmError::InvalidLodDistance);
        }
        let moving = match config.movement_mode {
            SwarmMovementMode::SpawnOnly => false,
            _ => true,
        };
        if moving {
            if config.movement_sample_limit == 0 {
                return Err(SwarmError::InvalidMovementSampleLimit);
            }
            if config.movement_cell_size_mm <= 0 {
                return Err(SwarmError::InvalidMovementCellSize);
            }
            if config.movement_physics_iterations == 0 {
                return Err(SwarmError::InvalidMovementPhysicsIterations);
            }
        }
        let static_obstacles = match CollisionWorld::new(SWARM_COLLISION_CELL_SIZE_MM) {
            Ok(w) => w,
            Err(_) => {
                return Err(SwarmError::InvalidStaticObstacle);
            },
        };
        Ok(
            Self {
                config,
                spawn_points,
                active_entities: Vec::new(),
                static_obstacles,
                static_obstacle_shapes: Vec::new(),
                flow_field_cache: SwarmFlowFieldCache::new(),
                aggro_trails: Vec::new(),
                next_entity_id: first_entity_id,
                next_spawn_point_index: 0,
                spawned_total: 0,
            },
        )
    }

    pub fn config(&self) -> (r: SwarmConfig)
        ensures
            r == self.spec_config(),
    {
        self.config
    }

    pub fn active_count(&self) -> (r: usize)
        ensures
            r == self.spec_active().len(),
    {
        self.active_entities.len()
    }

    pub fn spawned_total(&self) -> (r: usize)
        ensures
            r == self.spec_spawned_total(),
    {
        self.spawned_total
    }

    /// The active entities, by id.
    pub fn active_entities(&self) -> (r: &[SwarmEntity])
        ensures
            r@ == self.spec_active(),
    {
        self.active_entities.as_slice()
    }

    pub fn static_obstacle_count(&self) -> (r: usize)
        ensures
            r == self.spec_obstacles().len(),
    {
        self.static_obstacles.body_count()
    }

    /// Records a stimulus, replacing the earlier one of the same source.
    pub fn record_aggro_stimulus(&mut self, stimulus: AggroStimulus)
        requires
            old(self).wf(),
        ensures
            final(self).wf(),
            final(self).spec_config() == old(self).spec_config(),
            final(self).spec_spawn_points() == old(self).spec_spawn_points(),
            final(self).spec_active() == old(self).spec_active(),
            final(self).spec_obstacles() == old(self).spec_obstacles(),
            final(self).spec_obstacle_shapes() == old(self).spec_obstacle_shapes(),
            final(self).spec_next_id() == old(self).spec_next_id(),
            final(self).spec_next_spawn_index() == old(self).spec_next_spawn_index(),
            final(self).spec_spawned_total() == old(self).spec_spawned_total(),
            forall|k: int|
                0 <= k < final(self).spec_aggro().len() && (#[trigger] final(self).spec_aggro()[k]).source_entity_id
                    == stimulus.source_entity_id ==> final(self).spec_aggro()[k] == stimulus,
            final(self).spec_aggro().contains(stimulus),
            forall|k: int|
                0 <= k < old(self).spec_aggro().len() && (#[trigger] old(self).spec_aggro()[k]).source_entity_id
                    != stimulus.source_entity_id ==> final(self).spec_aggro().contains(old(self).spec_aggro()[k]),
            forall|k: int|
                0 <= k < final(self).spec_aggro().len() && (#[trigger] final(self).spec_aggro()[k]).source_entity_id
                    != stimulus.source_entity_id ==> old(self).spec_aggro().contains(final(self).spec_aggro()[k]),
    {
        let ghost s0 = self.aggro_trails@;
        let mut k: usize = 0;
        while k < self.aggro_trails.len() && self.aggro_trails[k].source_entity_id.0 < stimulus.source_entity_id.0
            invariant
                k <= self.aggro_trails@.len(),
                self.aggro_trails@ == s0,
                forall|j: int| 0 <= j < k ==> s0[j].source_entity_id.0 < stimulus.source_entity_id.0,
            decreases self.aggro_trails@.len() - k,
        {
            k += 1;
        }
        proof {
            assert forall|j: int| k < j < s0.len() implies s0[j].source_entity_id.0 > stimulus.source_entity_id.0 by {
                assert(s0[k as int].source_entity_id.0 < s0[j].source_entity_id.0);
            }
        }
        if k < self.aggro_trails.len() && self.aggro_trails[k].source_entity_id.0 == stimulus.source_entity_id.0 {
            self.aggro_trails.set(k, stimulus);
            proof {
                let s1 = self.aggro_trails@;
                assert(s1[k as int] == stimulus);
                assert(stimuli_increasing(s1));
                assert forall|a: int| 0 <= a < s1.len() && (#[trigger] s1[a]).source_entity_id == stimulus.source_entity_id
                    implies s1[a] == stimulus by {
                    if a < k {
                        assert(s1[a].source_entity_id.0 < s1[k as int].source_entity_id.0);
                    } else if a > k {
                        assert(s1[k as int].source_entity_id.0 < s1[a].source_entity_id.0);
                    }
                }
                assert forall|a: int| 0 <= a < s1.len() && (#[trigger] s1[a]).source_entity_id != stimulus.source_entity_id
                    implies s0.contains(s1[a]) by {
                    assert(s0[a] == s1[a]);
                }
                assert forall|a: int| 0 <= a < s0.len() && (#[trigger] s0[a]).source_entity_id != stimulus.source_entity_id
                    implies s1.contains(s0[a]) by {
                    assert(s1[a] == s0[a]);
                }
            }
        } else {
            self.aggro_trails.insert(k, stimulus);
            proof {
                let s1 = self.aggro_trails@;
                assert(s1[k as int] == stimulus);
                assert(stimuli_increasing(s1));
                assert forall|a: int| 0 <= a < s1.len() && (#[trigger] s1[a]).source_entity_id == stimulus.source_entity_id
                    implies s1[a] == stimulus by {
                    if a < k {
                        assert(s1[a].source_entity_id.0 < s1[k as int].source_entity_id.0);
                    } else if a > k {
                        assert(s1[k as int].source_entity_id.0 < s1[a].source_entity_id.0);
                    }
                }
                assert forall|a: int, b: int| 0 <= a < b < s1.len() implies s1[a].source_entity_id.0
                    < s1[b].source_entity_id.0 by {
                    if b < k {
                    } else if b == k {
                    } else if a < k {
                        assert(s1[b] == s0[b - 1]);
                    } else if a == k {
                        assert(s1[b] == s0[b - 1]);
                    } else {
                        assert(s1[a] == s0[a - 1]);
                        assert(s1[b] == s0[b - 1]);
                    }
                }
                assert forall|a: int| 0 <= a < s1.len() && (#[trigger] s1[a]).source_entity_id != stimulus.source_entity_id
                    implies s0.contains(s1[a]) by {
                    if a < k {
                        assert(s0[a] == s1[a]);
                    } else {
                        assert(s0[a - 1] == s1[a]);
                    }
                }
                assert forall|a: int| 0 <= a < s0.len() && (#[trigger] s0[a]).source_entity_id != stimulus.source_entity_id
                    implies s1.contains(s0[a]) by {
                    if a < k {
                        assert(s1[a] == s0[a]);
                    } else {
                        assert(s1[a + 1] == s0[a]);
                    }
                }
            }
        }
    }

    /// The collision bodies of the active entities, by id.
    pub fn collision_bodies(&self) -> (r: Vec<CollisionBody>)
        ensures
            r@ == self.spec_active().map_values(|e: SwarmEntity| entity_body(e)),
    {
        let mut bodies: Vec<CollisionBody> = Vec::new();
        let mut i: usize = 0;
        while i < self.active_entities.len()
            invariant
                i <= self.active_entities@.len(),
                bodies@ == self.active_entities@.take(i as int).map_values(|e: SwarmEntity| entity_body(e)),
            decreases self.active_entities@.len() - i,
        {
            bodies.push(self.active_entities[i].collision_body());
            assert(self.active_entities@.take(i + 1).map_values(|e: SwarmEntity| entity_body(e))
                =~= self.active_entities@.take(i as int).map_values(|e: SwarmEntity| entity_body(e)).push(
                entity_body(self.active_entities@[i as int]),
            ));
            i += 1;
        }
        assert(self.active_entities@.take(i as int) =~= self.active_entities@);
        bodies
    }

    /// The entity states of the active zombies, by id.
    pub fn snapshot_entities(&self) -> (r: Vec<EntityState>)
        ensures
            r@ == self.spec_active().map_values(|e: SwarmEntity| swarm_entity_state(e)),
    {
        let mut out: Vec<EntityState> = Vec::new();
        let mut i: usize = 0;
        while i < self.active_entities.len()
            invariant
                i <= self.active_entities@.len(),
                out@ == self.active_entities@.take(i as int).map_values(|e: SwarmEntity| swarm_entity_state(e)),
            decreases self.active_entities@.len() - i,
        {
            let entity = self.active_entities[i];
            out.push(
                EntityState {
                    entity_id: entity.entity_id,
                    entity_kind: SWARM_ENTITY_KIND,
                    faction_id: 0,
                    flags: 1,
                    position: entity.position,
                    facing_millirad: 0,
                    health_q8: 256,
                    state_id: 1,
                    state_param_q8: 0,
                },
            );
            assert(self.active_entities@.take(i + 1).map_values(|e: SwarmEntity| swarm_entity_state(e))
                =~= self.active_entities@.take(i as int).map_values(|e: SwarmEntity| swarm_entity_state(e)).push(
                swarm_entity_state(entity),
            ));
            i += 1;
        }
        assert(self.active_entities@.take(i as int) =~= self.active_entities@);
        out
    }

    pub fn build_full_snapshot(&self, snapshot_id: u64, tick: Tick) -> (r: Snapshot)
        ensures
            r.snapshot_id == snapshot_id,
            r.baseline_snapshot_id == 0,
            r.tick == tick,
            r.entities@ == self.spec_active().map_values(|e: SwarmEntity| swarm_entity_state(e)),
            r.removed_entities@ == Seq::<EntityId>::empty(),
    {
        let mut builder = SnapshotBuilder::full(snapshot_id, tick);
        let entities = self.snapshot_entities();
        let mut i: usize = 0;
        while i < entities.len()
            invariant
                i <= entities@.len(),
                builder.spec_snapshot_id() == snapshot_id,
                builder.spec_baseline() == 0,
                builder.spec_tick() == tick,
                builder.spec_entities() == entities@.take(i as int),
                builder.spec_removed() == Seq::<EntityId>::empty(),
            decreases entities@.len() - i,
        {
            builder.push_entity(entities[i]);
            assert(entities@.take(i + 1) =~= entities@.take(i as int).push(entities@[i as int]));
            i += 1;
        }
        assert(entities@.take(i as int) =~= entities@);
        builder.build()
    }
}

proof fn lemma_inserted_static(bs: Seq<CollisionBody>, id: EntityId)
    requires
        all_static(bs),
        inserted_map(bs).dom().contains(id),
    ensures
        inserted_map(bs)[id].kind == CollisionBodyKind::StaticObstacle,
    decreases bs.len(),
{
    if bs.len() > 0 && bs.last().entity_id != id {
        assert(all_static(bs.drop_last())) by {
            assert forall|i: int| 0 <= i < bs.drop_last().len() implies (#[trigger] bs.drop_last()[i]).kind
                == CollisionBodyKind::StaticObstacle by {
                assert(bs.drop_last()[i] == bs[i]);
            }
        }
        lemma_inserted_static(bs.drop_last(), id);
    }
}

impl SwarmState {
    /// Replaces the static obstacles, a later body replacing an earlier one with the same id;
    /// every body must be a static obstacle with a positive radius, else nothing changes.
    pub fn set_static_obstacles(&mut self, obstacles: Vec<CollisionBody>) -> (r: Result<(), SwarmError>)
        requires
            old(self).wf(),
        ensures
            final(self).wf(),
            final(self).spec_config() == old(self).spec_config(),
            final(self).spec_spawn_points() == old(self).spec_spawn_points(),
            final(self).spec_active() == old(self).spec_active(),
            final(self).spec_aggro() == old(self).spec_aggro(),
            final(self).spec_next_id() == old(self).spec_next_id(),
            final(self).spec_next_spawn_index() == old(self).spec_next_spawn_index(),
            final(self).spec_spawned_total() == old(self).spec_spawned_total(),
            r is Ok <==> all_static(obstacles@) && all_radii_positive(obstacles@),
            r is Err ==> r == Err::<(), SwarmError>(SwarmError::InvalidStaticObstacle)
                && final(self).spec_obstacles() == old(self).spec_obstacles()
                && final(self).spec_obstacle_shapes() == old(self).spec_obstacle_shapes(),
            r is Ok ==> body_map(final(self).spec_obstacles()) == inserted_map(obstacles@)
                && final(self).spec_obstacle_shapes() == Seq::<MapShape>::empty(),
            r is Err ==> *final(self) == *old(self),
            r is Ok ==> final(self).spec_cache().spec_keys().len() == 0
                && final(self).spec_cache().spec_stats() == old(self).spec_cache().spec_stats(),
    {
        let mut i: usize = 0;
        while i < obstacles.len()
            invariant
                self.wf(),
                i <= obstacles@.len(),
                forall|j: int| 0 <= j < i ==> (#[trigger] obstacles@[j]).kind == CollisionBodyKind::StaticObstacle
                    && obstacles@[j].radius_mm > 0,
            decreases obstacles@.len() - i,
        {
            let o = obstacles[i];
            let is_static = match o.kind {
                CollisionBodyKind::StaticObstacle => true,
                _ => false,
            };
            if !is_static || o.radius_mm <= 0 {
                return Err(SwarmError::InvalidStaticObstacle);
            }
            i += 1;
        }
        let ghost bs = obstacles@;
        let world = match CollisionWorld::with_bodies(SWARM_COLLISION_CELL_SIZE_MM, obstacles) {
            Ok(w) => w,
            Err(_) => {
                return Err(SwarmError::InvalidStaticObstacle);
            },
        };
        proof {
            world.lemma_wf();
            assert forall|k: int| 0 <= k < world.spec_bodies().len() implies (#[trigger] world.spec_bodies()[k]).kind
                == CollisionBodyKind::StaticObstacle by {
                let b = world.spec_bodies()[k];
                crate::collision::lemma_index_of(world.spec_bodies(), k);
                assert(body_map(world.spec_bodies()).dom().contains(b.entity_id));
                lemma_inserted_static(bs, b.entity_id);
            }
        }
        self.static_obstacles = world;
        self.static_obstacle_shapes = Vec::new();
        self.flow_field_cache.clear();
        Ok(())
    }

    /// The trail samples of the stimuli at a tick, by source.
    fn aggro_trail_samples(&self, tick: Tick) -> (r: Vec<AggroTrailSample>)
        ensures
            r@ == aggro_samples(self.spec_config(), tick, self.spec_aggro()),
    {
        let mut out: Vec<AggroTrailSample> = Vec::new();
        let mut i: usize = 0;
        while i < self.aggro_trails.len()
            invariant
                i <= self.aggro_trails@.len(),
                out@ == aggro_samples(self.config, tick, self.aggro_trails@.take(i as int)),
            decreases self.aggro_trails@.len() - i,
        {
            let stimulus = self.aggro_trails[i];
            assert(self.aggro_trails@.take(i + 1).drop_last() =~= self.aggro_trails@.take(i as int));
            match self.aggro_sample_for(tick, stimulus) {
                Some(sample) => out.push(sample),
                None => {},
            }
            i += 1;
        }
        assert(self.aggro_trails@.take(i as int) =~= self.aggro_trails@);
        out
    }

    fn aggro_sample_for(&self, tick: Tick, stimulus: AggroStimulus) -> (r: Option<AggroTrailSample>)
        ensures
            r == aggro_sample(self.spec_config(), tick, stimulus),
    {
        if tick.0 < stimulus.tick.0 {
            return None;
        }
        let age_ticks = tick.0 - stimulus.tick.0;
        let lane = if age_ticks <= self.config.direct_aggro_ticks {
            AggroTrailLane::Direct
        } else if age_ticks <= self.config.aggro_memory_ticks {
            AggroTrailLane::Memory
        } else {
            return None;
        };
        Some(
            AggroTrailSample {
                source_entity_id: stimulus.source_entity_id,
                position: stimulus.position,
                last_seen_tick: stimulus.tick,
                age_ticks,
                strength: stimulus.strength,
                lane,
            },
        )
    }

    fn best_aggro_sample(&self, tick: Tick) -> (r: Option<AggroTrailSample>)
        ensures
            r == best_sample(aggro_samples(self.spec_config(), tick, self.spec_aggro())),
    {
        let samples = self.aggro_trail_samples(tick);
        let mut best: Option<AggroTrailSample> = None;
        let mut i: usize = 0;
        while i < samples.len()
            invariant
                i <= samples@.len(),
                best == best_sample(samples@.take(i as int)),
            decreases samples@.len() - i,
        {
            let s = samples[i];
            assert(samples@.take(i + 1).drop_last() =~= samples@.take(i as int));
            best = match best {
                None => Some(s),
                Some(b) => {
                    let ra: u8 = match s.lane {
                        AggroTrailLane::Direct => 0,
                        AggroTrailLane::Memory => 1,
                    };
                    let rb: u8 = match b.lane {
                        AggroTrailLane::Direct => 0,
                        AggroTrailLane::Memory => 1,
                    };
                    let sa = 65535 - s.strength;
                    let sb = 65535 - b.strength;
                    let less = ra < rb || (ra == rb && (sa < sb || (sa == sb && (s.age_ticks < b.age_ticks || (
                    s.age_ticks == b.age_ticks && s.source_entity_id.0 < b.source_entity_id.0)))));
                    if less {
                        Some(s)
                    } else {
                        Some(b)
                    }
                },
            };
            i += 1;
        }
        assert(samples@.take(i as int) =~= samples@);
        best
    }

    fn ai_lod(&self, position: WorldPosition, focus: WorldPosition) -> (r: SwarmAiLod)
        requires
            self.wf(),
        ensures
            r == lod_for(self.spec_config(), position, focus),
    {
        let distance_sq_mm = distance_sq_mm(position, focus);
        let full = self.config.full_lod_distance_mm as i128;
        let reduced = self.config.reduced_lod_distance_mm as i128;
        assert(0 <= full * full <= 0x8000_0000 * 0x8000_0000) by (nonlinear_arith)
            requires
                0 < full <= 0x8000_0000,
        ;
        assert(0 <= reduced * reduced <= 0x8000_0000 * 0x8000_0000) by (nonlinear_arith)
            requires
                0 < reduced <= 0x8000_0000,
        ;
        let full_sq = (full * full) as u64;
        let reduced_sq = (reduced * reduced) as u64;
        if distance_sq_mm <= full_sq {
            SwarmAiLod::Full
        } else if distance_sq_mm <= reduced_sq {
            SwarmAiLod::Reduced
        } else {
            SwarmAiLod::Aggregate
        }
    }

    /// Every active zombie's intent and level of detail: all follow the preferred aggro trail
    /// when there is one, else their route; the level follows the distance to the focus.
    pub fn evaluate_behavior(&self, tick: Tick, focus: WorldPosition) -> (r: SwarmBehaviorReport)
        requires
            self.wf(),
        ensures
            r.schema@ == SWARM_SCHEMA@,
            r.tick == tick,
            r.focus == focus,
            ({
                let best = best_sample(aggro_samples(self.spec_config(), tick, self.spec_aggro()));
                r.samples@ == self.spec_active().map_values(
                    |e: SwarmEntity| behavior_sample(self.spec_config(), best, e, focus),
                )
            }),
            r.lod_counts.full == lod_count(self.spec_config(), self.spec_active(), focus, SwarmAiLod::Full),
            r.lod_counts.reduced == lod_count(self.spec_config(), self.spec_active(), focus, SwarmAiLod::Reduced),
            r.lod_counts.aggregate == lod_count(self.spec_config(), self.spec_active(), focus, SwarmAiLod::Aggregate),
    {
        let active_aggro = self.best_aggro_sample(tick);
        let ghost best = active_aggro;
        let mut lod_counts = SwarmAiLodCounts { full: 0, reduced: 0, aggregate: 0 };
        let mut samples: Vec<SwarmBehaviorSample> = Vec::new();
        let mut i: usize = 0;
        while i < self.active_entities.len()
            invariant
                self.wf(),
                i <= self.active_entities@.len(),
                samples@ == self.active_entities@.take(i as int).map_values(
                    |e: SwarmEntity| behavior_sample(self.config, best, e, focus),
                ),
                lod_counts.full == lod_count(self.config, self.active_entities@.take(i as int), focus, SwarmAiLod::Full),
                lod_counts.reduced == lod_count(self.config, self.active_entities@.take(i as int), focus, SwarmAiLod::Reduced),
                lod_counts.aggregate == lod_count(self.config, self.active_entities@.take(i as int), focus, SwarmAiLod::Aggregate),
                lod_counts.full + lod_counts.reduced + lod_counts.aggregate == i,
                best == active_aggro,
            decreases self.active_entities@.len() - i,
        {
            let entity = self.active_entities[i];
            let ai_lod = self.ai_lod(entity.position, focus);
            assert(self.active_entities@.take(i + 1).drop_last() =~= self.active_entities@.take(i as int));
            match ai_lod {
                SwarmAiLod::Full => lod_counts.full = lod_counts.full + 1,
                SwarmAiLod::Reduced => lod_counts.reduced = lod_counts.reduced + 1,
                SwarmAiLod::Aggregate => lod_counts.aggregate = lod_counts.aggregate + 1,
            }
            let (intent_kind, intent_target) = match active_aggro {
                Some(sample) => {
                    let kind = match sample.lane {
                        AggroTrailLane::Direct => SwarmIntentKind::AggroDirect,
                        AggroTrailLane::Memory => SwarmIntentKind::AggroMemory,
                    };
                    (kind, sample.position)
                },
                None => (SwarmIntentKind::RoutePressure, entity.route_target),
            };
            samples.push(SwarmBehaviorSample { entity_id: entity.entity_id, intent_kind, intent_target, ai_lod });
            assert(self.active_entities@.take(i + 1).map_values(|e: SwarmEntity| behavior_sample(self.config, best, e, focus))
                =~= self.active_entities@.take(i as int).map_values(
                |e: SwarmEntity| behavior_sample(self.config, best, e, focus),
            ).push(behavior_sample(self.config, best, entity, focus)));
            i += 1;
        }
        assert(self.active_entities@.take(i as int) =~= self.active_entities@);
        SwarmBehaviorReport { schema: SWARM_SCHEMA, tick, focus, samples, lod_counts }
    }
}

proof fn lemma_route_absent(active: Seq<SwarmEntity>, target: WorldPosition)
    requires
        !has_route_target(active, target),
    ensures
        route_count(active, target) == 0,
        route_nearest(active, target) == u64::MAX,
        route_farthest(active, target) == 0,
    decreases active.len(),
{
    if active.len() > 0 {
        let prev = active.drop_last();
        assert(!has_route_target(prev, target)) by {
            if has_route_target(prev, target) {
                let i = choose|i: int| 0 <= i < prev.len() && prev[i].route_target == target;
                assert(active[i] == prev[i]);
            }
        }
        assert(active[active.len() - 1].route_target != target);
        lemma_route_absent(prev, target);
    }
}

impl SwarmState {
    fn spawn_one(&mut self, tick: Tick) -> (r: SwarmEntity)
        requires
            old(self).wf(),
            old(self).spec_spawned_total() < usize::MAX,
        ensures
            final(self).wf(),
            final(self).spawn_view() == spawn_step(old(self).spec_config(), old(self).spec_spawn_points(), old(self).spawn_view(), tick),
            r.entity_id == EntityId(old(self).spec_next_id()),
            final(self).spec_spawned_total() == old(self).spec_spawned_total() + 1,
            final(self).spec_config() == old(self).spec_config(),
            final(self).spec_spawn_points() == old(self).spec_spawn_points(),
            final(self).spec_obstacles() == old(self).spec_obstacles(),
            final(self).spec_obstacle_shapes() == old(self).spec_obstacle_shapes(),
            final(self).spec_aggro() == old(self).spec_aggro(),
            final(self).spec_cache_requests() == old(self).spec_cache_requests(),
    {
        proof {
            lemma_spawn_step_ok(self.config, self.spawn_points@, self.spawn_view(), tick);
        }
        assert(self.next_spawn_point_index < self.spawn_points@.len());
        let spawn_point = self.spawn_points[self.next_spawn_point_index];
        let point_count = self.spawn_points.len();
        self.next_spawn_point_index = (self.next_spawn_point_index + 1) % point_count;
        let entity = SwarmEntity {
            entity_id: self.next_entity_id,
            spawned_tick: tick,
            position: spawn_point.position,
            route_target: spawn_point.route_target,
            collision_radius_mm: self.config.collision_radius_mm,
        };
        self.next_entity_id = EntityId(if self.next_entity_id.0 < u64::MAX { self.next_entity_id.0 + 1 } else { u64::MAX });
        self.spawned_total = self.spawned_total + 1;
        let n = self.active_entities.len();
        if n > 0 && self.active_entities[n - 1].entity_id.0 == entity.entity_id.0 {
            self.active_entities.set(n - 1, entity);
        } else {
            self.active_entities.push(entity);
        }
        entity
    }

    fn should_spawn_on_tick(&self, tick: Tick) -> (r: bool)
        requires
            self.wf(),
        ensures
            r == spawn_due(self.spec_config(), self.spec_active().len(), tick),
    {
        tick.0 >= self.config.start_tick.0 && (tick.0 - self.config.start_tick.0) % self.config.spawn_interval_ticks == 0
            && self.active_entities.len() < self.config.max_active
    }

    /// Spawns the tick's batch, if it is a spawn tick, and returns the ids given out.
    fn spawn_due_on_tick(&mut self, tick: Tick) -> (r: Vec<EntityId>)
        requires
            old(self).wf(),
            old(self).spec_spawned_total() + spawn_count(old(self).spec_config(), old(self).spec_active().len(), tick)
                <= usize::MAX,
        ensures
            final(self).wf(),
            ({
                let k = spawn_count(old(self).spec_config(), old(self).spec_active().len(), tick);
                &&& final(self).spawn_view() == spawn_many(
                    old(self).spec_config(),
                    old(self).spec_spawn_points(),
                    old(self).spawn_view(),
                    tick,
                    k,
                )
                &&& r@ == spawned_ids(old(self).spec_config(), old(self).spec_spawn_points(), old(self).spawn_view(), tick, k)
                &&& final(self).spec_spawned_total() == old(self).spec_spawned_total() + k
            }),
            final(self).spec_config() == old(self).spec_config(),
            final(self).spec_spawn_points() == old(self).spec_spawn_points(),
            final(self).spec_obstacles() == old(self).spec_obstacles(),
            final(self).spec_obstacle_shapes() == old(self).spec_obstacle_shapes(),
            final(self).spec_aggro() == old(self).spec_aggro(),
            final(self).spec_cache_requests() == old(self).spec_cache_requests(),
    {
        let mut spawned_entity_ids: Vec<EntityId> = Vec::new();
        let ghost k = spawn_count(self.config, self.active_entities@.len(), tick);
        let ghost st0 = self.spawn_view();
        let mut count: usize = 0;
        if self.should_spawn_on_tick(tick) {
            let available_slots = self.config.max_active - self.active_entities.len();
            count = if self.config.spawn_batch_size < available_slots {
                self.config.spawn_batch_size
            } else {
                available_slots
            };
        }
        assert(count == k);
        let mut j: usize = 0;
        while j < count
            invariant
                self.wf(),
                j <= count,
                count == k,
                self.spawn_view() == spawn_many(old(self).spec_config(), old(self).spec_spawn_points(), st0, tick, j as nat),
                spawned_entity_ids@ == spawned_ids(old(self).spec_config(), old(self).spec_spawn_points(), st0, tick, j as nat),
                self.spec_spawned_total() == old(self).spec_spawned_total() + j,
                old(self).spec_spawned_total() + k <= usize::MAX,
                self.spec_config() == old(self).spec_config(),
                self.spec_spawn_points() == old(self).spec_spawn_points(),
                self.spec_obstacles() == old(self).spec_obstacles(),
                self.spec_obstacle_shapes() == old(self).spec_obstacle_shapes(),
                self.spec_aggro() == old(self).spec_aggro(),
                self.spec_cache_requests() == old(self).spec_cache_requests(),
            decreases count - j,
        {
            let entity = self.spawn_one(tick);
            spawned_entity_ids.push(entity.entity_id);
            j += 1;
        }
        spawned_entity_ids
    }

    /// The route pressure of the active zombies: per route target, in target order, how many
    /// press towards it and how near and far they are.
    fn route_pressure(&self) -> (r: Vec<RoutePressureSample>)
        ensures
            route_pressure_matches(r@, self.spec_active(), self.spec_config().route_pressure_radius_mm),
    {
        let radius = self.config.route_pressure_radius_mm;
        let mut acc: Vec<RoutePressureSample> = Vec::new();
        let mut i: usize = 0;
        let ghost active = self.active_entities@;
        proof {
            assert forall|t: WorldPosition| has_route_target(active.take(0), t) <==> exists|x: int| 0 <= x < acc@.len()
                && acc@[x].target_position == t by {
            }
        }
        while i < self.active_entities.len()
            invariant
                active == self.active_entities@,
                radius == self.config.route_pressure_radius_mm,
                i <= active.len(),
                route_pressure_matches(acc@, active.take(i as int), radius),
            decreases active.len() - i,
        {
            let e = self.active_entities[i];
            let t = e.route_target;
            let d = distance_sq_mm(e.position, t);
            let ghost prev = active.take(i as int);
            let ghost next = active.take(i + 1);
            let ghost a0 = acc@;
            assert(next.drop_last() =~= prev);
            assert(next.last() == e);
            let mut p: usize = 0;
            while p < acc.len() && (acc[p].target_position.x_mm < t.x_mm || (acc[p].target_position.x_mm == t.x_mm
                && acc[p].target_position.y_mm < t.y_mm))
                invariant
                    acc@ == a0,
                    p <= a0.len(),
                    forall|j: int| 0 <= j < p ==> target_less(a0[j].target_position, t),
                decreases a0.len() - p,
            {
                p += 1;
            }
            proof {
                assert forall|j: int| p < j < a0.len() implies target_less(t, a0[j].target_position) by {
                    assert(target_less(a0[p as int].target_position, a0[j].target_position));
                }
                lemma_route_count_bound(prev, t);
                lemma_route_count_bound(next, t);
            }
            if p < acc.len() && acc[p].target_position.x_mm == t.x_mm && acc[p].target_position.y_mm == t.y_mm {
                let old_sample = acc[p];
                let nearest = if d < old_sample.nearest_distance_sq_mm { d } else { old_sample.nearest_distance_sq_mm };
                let farthest = if d > old_sample.farthest_distance_sq_mm { d } else { old_sample.farthest_distance_sq_mm };
                let updated = RoutePressureSample {
                    target_position: t,
                    active_entity_count: old_sample.active_entity_count + 1,
                    radius_mm: radius,
                    nearest_distance_sq_mm: nearest,
                    farthest_distance_sq_mm: farthest,
                };
                acc.set(p, updated);
                proof {
                    let a1 = acc@;
                    assert forall|t2: WorldPosition| has_route_target(next, t2) <==> exists|x: int| 0 <= x < a1.len()
                        && a1[x].target_position == t2 by {
                        if has_route_target(next, t2) && t2 != t {
                            let x = choose|x: int| 0 <= x < next.len() && next[x].route_target == t2;
                            assert(prev[x] == next[x]);
                            assert(has_route_target(prev, t2));
                            let y = choose|y: int| 0 <= y < a0.len() && a0[y].target_position == t2;
                            assert(a1[y].target_position == t2);
                        }
                        if t2 == t {
                            assert(next[i as int].route_target == t2);
                            assert(a1[p as int].target_position == t2);
                        }
                        if exists|x: int| 0 <= x < a1.len() && a1[x].target_position == t2 {
                            let x = choose|x: int| 0 <= x < a1.len() && a1[x].target_position == t2;
                            assert(a0[x].target_position == t2);
                            if has_route_target(prev, t2) {
                                let y = choose|y: int| 0 <= y < prev.len() && prev[y].route_target == t2;
                                assert(next[y] == prev[y]);
                            }
                        }
                    }
                    assert forall|x: int| 0 <= x < a1.len() implies (#[trigger] a1[x]) == (RoutePressureSample {
                        target_position: a1[x].target_position,
                        active_entity_count: route_count(next, a1[x].target_position) as usize,
                        radius_mm: radius,
                        nearest_distance_sq_mm: route_nearest(next, a1[x].target_position),
                        farthest_distance_sq_mm: route_farthest(next, a1[x].target_position),
                    }) by {
                        assert(a0[x] == (RoutePressureSample {
                            target_position: a0[x].target_position,
                            active_entity_count: route_count(prev, a0[x].target_position) as usize,
                            radius_mm: radius,
                            nearest_distance_sq_mm: route_nearest(prev, a0[x].target_position),
                            farthest_distance_sq_mm: route_farthest(prev, a0[x].target_position),
                        }));
                        lemma_route_count_bound(prev, a0[x].target_position);
                        lemma_route_count_bound(next, a0[x].target_position);
                    }
                }
            } else {
                let fresh = RoutePressureSample {
                    target_position: t,
                    active_entity_count: 1,
                    radius_mm: radius,
                    nearest_distance_sq_mm: d,
                    farthest_distance_sq_mm: d,
                };
                proof {
                    if has_route_target(prev, t) {
                        let y = choose|y: int| 0 <= y < a0.len() && a0[y].target_position == t;
                        if y < p {
                        } else if y > p {
                        }
                    }
                    lemma_route_absent(prev, t);
                }
                acc.insert(p, fresh);
                proof {
                    let a1 = acc@;
                    assert(a1 == a0.insert(p as int, fresh));
                    assert forall|x: int, y: int| 0 <= x < y < a1.len() implies target_less(
                        a1[x].target_position,
                        a1[y].target_position,
                    ) by {
                        if y < p {
                        } else if y == p {
                        } else if x < p {
                            assert(a1[y] == a0[y - 1]);
                        } else if x == p {
                            assert(a1[y] == a0[y - 1]);
                        } else {
                            assert(a1[x] == a0[x - 1]);
                            assert(a1[y] == a0[y - 1]);
                        }
                    }
                    assert forall|t2: WorldPosition| has_route_target(next, t2) <==> exists|x: int| 0 <= x < a1.len()
                        && a1[x].target_position == t2 by {
                        if has_route_target(next, t2) && t2 != t {
                            let x = choose|x: int| 0 <= x < next.len() && next[x].route_target == t2;
                            assert(prev[x] == next[x]);
                            assert(has_route_target(prev, t2));
                            let y = choose|y: int| 0 <= y < a0.len() && a0[y].target_position == t2;
                            if y < p {
                                assert(a1[y].target_position == t2);
                            } else {
                                assert(a1[y + 1].target_position == t2);
                            }
                        }
                        if t2 == t {
                            assert(next[i as int].route_target == t2);
                            assert(a1[p as int].target_position == t2);
                        }
                        if exists|x: int| 0 <= x < a1.len() && a1[x].target_position == t2 {
                            let x = choose|x: int| 0 <= x < a1.len() && a1[x].target_position == t2;
                            if x < p {
                                assert(a0[x].target_position == t2);
                            } else if x > p {
                                assert(a0[x - 1].target_position == t2);
                            }
                            if t2 != t {
                                assert(has_route_target(prev, t2));
                                let y = choose|y: int| 0 <= y < prev.len() && prev[y].route_target == t2;
                                assert(next[y] == prev[y]);
                            }
                        }
                    }
                    assert forall|x: int| 0 <= x < a1.len() implies (#[trigger] a1[x]) == (RoutePressureSample {
                        target_position: a1[x].target_position,
                        active_entity_count: route_count(next, a1[x].target_position) as usize,
                        radius_mm: radius,
                        nearest_distance_sq_mm: route_nearest(next, a1[x].target_position),
                        farthest_distance_sq_mm: route_farthest(next, a1[x].target_position),
                    }) by {
                        if x != p {
                            let x0 = if x < p { x } else { x - 1 };
                            assert(a1[x] == a0[x0]);
                            assert(a0[x0] == (RoutePressureSample {
                                target_position: a0[x0].target_position,
                                active_entity_count: route_count(prev, a0[x0].target_position) as usize,
                                radius_mm: radius,
                                nearest_distance_sq_mm: route_nearest(prev, a0[x0].target_position),
                                farthest_distance_sq_mm: route_farthest(prev, a0[x0].target_position),
                            }));
                        }
                    }
                }
            }
            i += 1;
        }
        assert(active.take(i as int) =~= active);
        acc
    }
}

/// The tick report of a swarm state after a tick's spawns.
pub open spec fn tick_report_matches(
    r: SwarmTickReport,
    state: SwarmState,
    tick: Tick,
    spawned: Seq<EntityId>,
    movement: Option<SwarmMovementApplyReport>,
) -> bool {
    &&& r.schema@ == SWARM_SCHEMA@
    &&& r.tick == tick
    &&& r.spawned_entity_ids@ == spawned
    &&& r.active_count == state.spec_active().len()
    &&& r.spawn_capped == (state.spec_active().len() >= state.spec_config().max_active)
    &&& route_pressure_matches(r.route_pressure@, state.spec_active(), state.spec_config().route_pressure_radius_mm)
    &&& r.aggro_trails@ == aggro_samples(state.spec_config(), tick, state.spec_aggro())
    &&& r.movement == movement
}

impl SwarmState {
    fn tick_report(&self, tick: Tick, spawned_entity_ids: Vec<EntityId>, movement: Option<SwarmMovementApplyReport>) -> (r: SwarmTickReport)
        ensures
            tick_report_matches(r, *self, tick, spawned_entity_ids@, movement),
    {
        let active_count = self.active_entities.len();
        SwarmTickReport {
            schema: SWARM_SCHEMA,
            tick,
            spawned_entity_ids,
            active_count,
            spawn_capped: active_count >= self.config.max_active,
            route_pressure: self.route_pressure(),
            aggro_trails: self.aggro_trail_samples(tick),
            movement,
        }
    }

    /// Replaces the static obstacles with those of a valid map import, one body per obstacle
    /// shape in order, and keeps the shapes for the flow field blockers; returns how many
    /// obstacles there are.
    pub fn set_static_obstacles_from_map_data(&mut self, map: &MapDataImport) -> (r: Result<usize, SwarmError>)
        requires
            old(self).wf(),
        ensures
            final(self).wf(),
            final(self).spec_config() == old(self).spec_config(),
            final(self).spec_spawn_points() == old(self).spec_spawn_points(),
            final(self).spec_active() == old(self).spec_active(),
            final(self).spec_aggro() == old(self).spec_aggro(),
            final(self).spec_next_id() == old(self).spec_next_id(),
            final(self).spec_next_spawn_index() == old(self).spec_next_spawn_index(),
            final(self).spec_spawned_total() == old(self).spec_spawned_total(),
            map_validation(*map) is Err ==> r == Err::<usize, SwarmError>(
                SwarmError::InvalidMapData(map_validation(*map)->Err_0),
            ) && final(self).spec_obstacles() == old(self).spec_obstacles()
                && final(self).spec_obstacle_shapes() == old(self).spec_obstacle_shapes(),
            map_validation(*map) is Ok ==> {
                &&& r == Ok::<usize, SwarmError>(final(self).spec_obstacles().len() as usize)
                &&& body_map(final(self).spec_obstacles()) == inserted_map(
                    Seq::new(map.obstacles@.len(), |i: int| obstacle_body_of_shape(i, map.obstacles@[i])),
                )
                &&& final(self).spec_obstacle_shapes() == map.obstacles@
            },
    {
        match validate_map_data_import(map) {
            Err(e) => {
                return Err(SwarmError::InvalidMapData(e));
            },
            Ok(_) => {},
        }
        let ghost target = Seq::new(map.obstacles@.len(), |i: int| obstacle_body_of_shape(i, map.obstacles@[i]));
        let mut bodies: Vec<CollisionBody> = Vec::new();
        let mut shapes: Vec<MapShape> = Vec::new();
        let mut i: usize = 0;
        while i < map.obstacles.len()
            invariant
                map_validation(*map) is Ok,
                i <= map.obstacles@.len(),
                bodies@ == target.take(i as int),
                shapes@ == map.obstacles@.take(i as int),
                target == Seq::new(map.obstacles@.len(), |i: int| obstacle_body_of_shape(i, map.obstacles@[i])),
            decreases map.obstacles@.len() - i,
        {
            let shape = &map.obstacles[i];
            let id = if i as u64 <= u64::MAX - SWARM_MAP_OBSTACLE_ENTITY_ID_BASE {
                SWARM_MAP_OBSTACLE_ENTITY_ID_BASE + i as u64
            } else {
                u64::MAX
            };
            let radius = if shape.half_extents_mm.x_mm >= shape.half_extents_mm.y_mm {
                shape.half_extents_mm.x_mm
            } else {
                shape.half_extents_mm.y_mm
            };
            bodies.push(
                CollisionBody {
                    entity_id: EntityId(id),
                    kind: CollisionBodyKind::StaticObstacle,
                    position: WorldPosition { x_mm: shape.center.x_mm, y_mm: shape.center.y_mm },
                    radius_mm: radius,
                },
            );
            shapes.push(
                MapShape {
                    id: shape.id.clone(),
                    kind: shape.kind,
                    center: shape.center,
                    half_extents_mm: shape.half_extents_mm,
                    class_label: shape.class_label.clone(),
                },
            );
            assert(bodies@ =~= target.take(i + 1));
            assert(shapes@ =~= map.obstacles@.take(i + 1));
            i += 1;
        }
        assert(bodies@ =~= target);
        assert(shapes@ =~= map.obstacles@);
        proof {
            crate::map_data::lemma_validated_obstacles_solid(*map);
            assert forall|k: int| 0 <= k < target.len() implies (#[trigger] target[k]).radius_mm > 0 by {
                assert(map.obstacles@[k].half_extents_mm.x_mm > 0);
            }
            assert forall|k: int| 0 <= k < target.len() implies (#[trigger] target[k]).kind
                == CollisionBodyKind::StaticObstacle by {
            }
        }
        let set = self.set_static_obstacles(bodies);
        if set.is_err() {
            return Err(SwarmError::InvalidStaticObstacle);
        }
        self.static_obstacle_shapes = shapes;
        Ok(self.static_obstacles.body_count())
    }
}

// ---------------------------------------------------------------------------------------------
// Flow field cache
// ---------------------------------------------------------------------------------------------

pub const SWARM_FLOW_FIELD_CACHE_ENTRY_LIMIT: usize = 32;

/// A flow field request as the cache compares it: bounds, target cell, blocked cell keys in
/// increasing order, and cell size.
pub type SwarmCacheKeyView = (FlowFieldBounds, SpatialCell, Seq<u64>, i32);

/// The cache's key order: bounds, then target cell, then blocked cells, then cell size.
pub open spec fn swarm_key_less(a: SwarmCacheKeyView, b: SwarmCacheKeyView) -> bool {
    let ab = (a.0.min_x, a.0.min_y, a.0.max_x, a.0.max_y);
    let bb = (b.0.min_x, b.0.min_y, b.0.max_x, b.0.max_y);
    if ab != bb {
        ab.0 < bb.0 || (ab.0 == bb.0 && (ab.1 < bb.1 || (ab.1 == bb.1 && (ab.2 < bb.2 || (ab.2 == bb.2 && ab.3 < bb.3)))))
    } else if a.1 != b.1 {
        a.1.x < b.1.x || (a.1.x == b.1.x && a.1.y < b.1.y)
    } else if a.2 != b.2 {
        lex_less_u64(a.2, b.2, 0)
    } else {
        a.3 < b.3
    }
}

proof fn lemma_swarm_key_order(x: SwarmCacheKeyView, y: SwarmCacheKeyView, z: SwarmCacheKeyView)
    ensures
        !swarm_key_less(x, x),
        swarm_key_less(x, y) && swarm_key_less(y, z) ==> swarm_key_less(x, z),
        x != y ==> swarm_key_less(x, y) || swarm_key_less(y, x),
{
    lemma_lex_u64_order(x.2, y.2, z.2, 0);
    lemma_lex_u64_order(x.2, x.2, x.2, 0);
    lemma_lex_u64_order(y.2, y.2, y.2, 0);
    if x.2 != y.2 && !lex_less_u64(x.2, y.2, 0) && !lex_less_u64(y.2, x.2, 0) {
        lemma_lex_u64_total(x.2, y.2, 0);
    }
    if swarm_key_less(x, y) && swarm_key_less(y, z) {
        if x.2 == z.2 && x.0 == y.0 && y.0 == z.0 && x.1 == y.1 && y.1 == z.1 && x.2 != y.2 {
            lemma_lex_u64_order(x.2, y.2, x.2, 0);
        }
    }
}

#[derive(Debug, Clone)]
struct SwarmCacheKey {
    bounds: FlowFieldBounds,
    target_cell: SpatialCell,
    blocked: Vec<u64>,
    cell_size_mm: i32,
}

impl SwarmCacheKey {
    spec fn view_key(&self) -> SwarmCacheKeyView {
        (self.bounds, self.target_cell, self.blocked@, self.cell_size_mm)
    }
}

fn cache_key_less(a: &SwarmCacheKey, b: &SwarmCacheKey) -> (r: bool)
    ensures
        r == swarm_key_less(a.view_key(), b.view_key()),
{
    let ab = (a.bounds.min_x, a.bounds.min_y, a.bounds.max_x, a.bounds.max_y);
    let bb = (b.bounds.min_x, b.bounds.min_y, b.bounds.max_x, b.bounds.max_y);
    if ab.0 != bb.0 || ab.1 != bb.1 || ab.2 != bb.2 || ab.3 != bb.3 {
        ab.0 < bb.0 || (ab.0 == bb.0 && (ab.1 < bb.1 || (ab.1 == bb.1 && (ab.2 < bb.2 || (ab.2 == bb.2 && ab.3 < bb.3)))))
    } else if a.target_cell.x != b.target_cell.x || a.target_cell.y != b.target_cell.y {
        a.target_cell.x < b.target_cell.x || (a.target_cell.x == b.target_cell.x && a.target_cell.y < b.target_cell.y)
    } else if !keys_equal(&a.blocked, &b.blocked) {
        keys_less(&a.blocked, &b.blocked)
    } else {
        a.cell_size_mm < b.cell_size_mm
    }
}

fn cache_key_equal(a: &SwarmCacheKey, b: &SwarmCacheKey) -> (r: bool)
    ensures
        r == (a.view_key() == b.view_key()),
{
    a.bounds.min_x == b.bounds.min_x && a.bounds.min_y == b.bounds.min_y && a.bounds.max_x == b.bounds.max_x
        && a.bounds.max_y == b.bounds.max_y && a.target_cell.x == b.target_cell.x && a.target_cell.y == b.target_cell.y
        && keys_equal(&a.blocked, &b.blocked) && a.cell_size_mm == b.cell_size_mm
}

/// The keys of a set of cells, increasing: the form in which the cache compares blocked cells.
pub open spec fn canonical_keys(cells: Seq<SpatialCell>) -> Seq<u64> {
    choose|ks: Seq<u64>| keys_of_cells(ks, cells)
}

pub open spec fn keys_of_cells(ks: Seq<u64>, cells: Seq<SpatialCell>) -> bool {
    &&& strictly_increasing(ks)
    &&& forall|k: u64| #[trigger] ks.contains(k) <==> exists|i: int| 0 <= i < cells.len() && cell_key(cells[i]) == k
}

proof fn lemma_canonical_keys(ks: Seq<u64>, cells: Seq<SpatialCell>)
    requires
        keys_of_cells(ks, cells),
    ensures
        canonical_keys(cells) == ks,
{
    let c = canonical_keys(cells);
    assert(keys_of_cells(c, cells));
    crate::movement_scale::lemma_sorted_unique(ks, c);
}

/// A flow field built for a key: its bounds and goal are the key's, and it blocks exactly the
/// key's blocked cells that lie inside the bounds.
pub open spec fn swarm_entry_matches(k: SwarmCacheKeyView, m: FlowFieldMap) -> bool {
    &&& m.wf()
    &&& m.spec_bounds() == k.0
    &&& m.spec_goal() == k.1
    &&& strictly_increasing(m.spec_blocked())
    &&& forall|c: SpatialCell| #[trigger] m.spec_blocked().contains(cell_key(c) as u64)
        <==> (k.2.contains(cell_key(c) as u64) && in_bounds(k.0, c.x as int, c.y as int))
}

/// The flow-field step from a cell in the field of a key, on a grid of the key's cell size.
pub open spec fn keyed_flow_step(k: SwarmCacheKeyView, cell: SpatialCell) -> FlowFieldStep {
    flow_step(choose|m: FlowFieldMap| swarm_entry_matches(k, m), cell, k.3)
}

/// The cell whose key is `x`.
pub open spec fn cell_of_key(x: u64) -> SpatialCell {
    SpatialCell { x: (x / 0x1_0000_0000 - 0x8000_0000) as i32, y: (x % 0x1_0000_0000 - 0x8000_0000) as i32 }
}

/// Every 64-bit key is the key of a cell.
proof fn lemma_cell_of_key(x: u64)
    ensures
        cell_key(cell_of_key(x)) == x,
{
    assert(x / 0x1_0000_0000 < 0x1_0000_0000 && x % 0x1_0000_0000 < 0x1_0000_0000) by (bit_vector);
    assert(x == (x / 0x1_0000_0000) * 0x1_0000_0000 + x % 0x1_0000_0000) by (bit_vector);
}

/// Every field built for a key steps as the key's field does.
pub proof fn lemma_keyed_flow_step(k: SwarmCacheKeyView, m: FlowFieldMap, cell: SpatialCell)
    requires
        swarm_entry_matches(k, m),
    ensures
        flow_step(m, cell, k.3) == keyed_flow_step(k, cell),
{
    let m2 = choose|m: FlowFieldMap| swarm_entry_matches(k, m);
    assert(swarm_entry_matches(k, m2));
    assert forall|x: u64| #[trigger] m.spec_blocked().contains(x) <==> m2.spec_blocked().contains(x) by {
        let c = cell_of_key(x);
        lemma_cell_of_key(x);
        assert(m.spec_blocked().contains(cell_key(c) as u64) <==> m2.spec_blocked().contains(cell_key(c) as u64));
    }
    crate::movement_scale::lemma_sorted_unique(m.spec_blocked(), m2.spec_blocked());
}

#[derive(Debug, Clone, Copy, PartialEq, Eq, Structural)]
pub struct SwarmFlowFieldCacheStats {
    pub request_count: u64,
    pub build_count: u64,
    pub hit_count: u64,
    pub eviction_count: u64,
}

/// The keys in increasing key order.
pub open spec fn swarm_keys_sorted(ks: Seq<SwarmCacheKeyView>) -> bool {
    forall|i: int, j: int| 0 <= i < j < ks.len() ==> swarm_key_less(ks[i], ks[j])
}

/// The swarm's flow fields, in key order, with request statistics.
#[derive(Debug, Clone)]
pub struct SwarmFlowFieldCache {
    keys: Vec<SwarmCacheKey>,
    maps: Vec<FlowFieldMap>,
    request_count: u64,
    build_count: u64,
    hit_count: u64,
    eviction_count: u64,
}

impl SwarmFlowFieldCache {
    /// The keys of the cached fields, in key order.
    pub closed spec fn spec_keys(&self) -> Seq<SwarmCacheKeyView> {
        self.keys@.map_values(|k: SwarmCacheKey| k.view_key())
    }

    pub closed spec fn spec_stats(&self) -> SwarmFlowFieldCacheStats {
        SwarmFlowFieldCacheStats {
            request_count: self.request_count,
            build_count: self.build_count,
            hit_count: self.hit_count,
            eviction_count: self.eviction_count,
        }
    }

    pub closed spec fn wf(&self) -> bool {
        &&& self.keys@.len() == self.maps@.len()
        &&& self.keys@.len() <= SWARM_FLOW_FIELD_CACHE_ENTRY_LIMIT
        &&& swarm_keys_sorted(self.spec_keys())
        &&& forall|i: int| 0 <= i < self.maps@.len() ==> swarm_entry_matches(self.keys@[i].view_key(), #[trigger] self.maps@[i])
        &&& self.hit_count + self.build_count == self.request_count
        &&& self.eviction_count <= self.build_count
    }

    pub fn new() -> (r: Self)
        ensures
            r.wf(),
            r.spec_keys() == Seq::<SwarmCacheKeyView>::empty(),
            r.spec_stats() == (SwarmFlowFieldCacheStats { request_count: 0, build_count: 0, hit_count: 0, eviction_count: 0 }),
    {
        let r = SwarmFlowFieldCache { keys: Vec::new(), maps: Vec::new(), request_count: 0, build_count: 0, hit_count: 0, eviction_count: 0 };
        assert(r.spec_keys() =~= Seq::<SwarmCacheKeyView>::empty());
        r
    }

    pub fn stats(&self) -> (r: SwarmFlowFieldCacheStats)
        ensures
            r == self.spec_stats(),
    {
        SwarmFlowFieldCacheStats {
            request_count: self.request_count,
            build_count: self.build_count,
            hit_count: self.hit_count,
            eviction_count: self.eviction_count,
        }
    }

    pub fn entry_count(&self) -> (r: usize)
        ensures
            r == self.spec_keys().len(),
    {
        self.keys.len()
    }

    fn clear(&mut self)
        requires
            old(self).wf(),
        ensures
            final(self).wf(),
            final(self).spec_keys().len() == 0,
            final(self).spec_stats() == old(self).spec_stats(),
    {
        self.keys = Vec::new();
        self.maps = Vec::new();
        assert(self.spec_keys() =~= Seq::<SwarmCacheKeyView>::empty());
    }

    /// Whether the cache holds the field of a request.
    pub fn contains_key(&self, bounds: FlowFieldBounds, target_cell: SpatialCell, blocked_cells: &Vec<SpatialCell>, cell_size_mm: i32) -> (r: bool)
        ensures
            r == self.spec_keys().contains((bounds, target_cell, canonical_keys(blocked_cells@), cell_size_mm)),
    {
        let set = cell_set_of(blocked_cells);
        proof {
            lemma_canonical_keys(set.0@, blocked_cells@);
        }
        let key = SwarmCacheKey { bounds, target_cell, blocked: set.0, cell_size_mm };
        let mut i: usize = 0;
        while i < self.keys.len()
            invariant
                i <= self.keys@.len(),
                key.view_key() == (bounds, target_cell, canonical_keys(blocked_cells@), cell_size_mm),
                forall|j: int| 0 <= j < i ==> self.keys@[j].view_key() != key.view_key(),
            decreases self.keys@.len() - i,
        {
            if cache_key_equal(&self.keys[i], &key) {
                assert(self.spec_keys()[i as int] == key.view_key());
                assert(self.spec_keys().contains(key.view_key()));
                return true;
            }
            i += 1;
        }
        proof {
            if self.spec_keys().contains(key.view_key()) {
                let j = choose|j: int| 0 <= j < self.spec_keys().len() && self.spec_keys()[j] == key.view_key();
                assert(self.keys@[j].view_key() == key.view_key());
            }
        }
        false
    }

    /// The cached field of a request, built on a miss; on a miss with a full cache the field
    /// with the least key leaves first.
    pub fn get_or_build(&mut self, bounds: FlowFieldBounds, target_cell: SpatialCell, blocked_cells: &Vec<SpatialCell>, cell_size_mm: i32) -> (r: FlowFieldMap)
        requires
            old(self).wf(),
            bounds.min_x <= bounds.max_x,
            bounds.min_y <= bounds.max_y,
            !blocked_cells@.contains(target_cell),
            old(self).spec_stats().request_count < u64::MAX,
        ensures
            final(self).wf(),
            r.wf(),
            swarm_entry_matches((bounds, target_cell, canonical_keys(blocked_cells@), cell_size_mm), r),
            cache_step(*old(self), *final(self), (bounds, target_cell, canonical_keys(blocked_cells@), cell_size_mm)),
    {
        let set = cell_set_of(blocked_cells);
        proof {
            lemma_canonical_keys(set.0@, blocked_cells@);
        }
        let key = SwarmCacheKey { bounds, target_cell, blocked: set.0, cell_size_mm };
        let i = self.entry_for(key, blocked_cells);
        let r = self.maps[i].duplicate();
        proof {
            r.lemma_same_field(self.maps@[i as int]);
            assert forall|c: SpatialCell| #[trigger] r.spec_blocked().contains(cell_key(c) as u64)
                <==> self.maps@[i as int].spec_blocked().contains(cell_key(c) as u64) by {}
        }
        r
    }

    /// The index of the entry for a key, built on a miss.
    fn entry_for(&mut self, key: SwarmCacheKey, blocked_cells: &Vec<SpatialCell>) -> (r: usize)
        requires
            old(self).wf(),
            key.bounds.min_x <= key.bounds.max_x,
            key.bounds.min_y <= key.bounds.max_y,
            !blocked_cells@.contains(key.target_cell),
            old(self).request_count < u64::MAX,
            keys_of_cells(key.blocked@, blocked_cells@),
        ensures
            final(self).wf(),
            r < final(self).maps@.len(),
            swarm_entry_matches(key.view_key(), final(self).maps@[r as int]),
            cache_step(*old(self), *final(self), key.view_key()),
    {
        let ghost ks0 = self.spec_keys();
        let mut i: usize = 0;
        while i < self.keys.len() && !cache_key_equal(&self.keys[i], &key)
            invariant
                i <= self.keys@.len(),
                forall|j: int| 0 <= j < i ==> self.keys@[j].view_key() != key.view_key(),
            decreases self.keys@.len() - i,
        {
            i += 1;
        }
        if i < self.keys.len() {
            proof {
                assert(ks0[i as int] == key.view_key());
                assert(ks0.contains(key.view_key()));
                assert(swarm_entry_matches(self.keys@[i as int].view_key(), self.maps@[i as int]));
            }
            self.request_count = self.request_count + 1;
            self.hit_count = self.hit_count + 1;
            proof {
                assert(self.spec_keys() =~= ks0);
            }
            return i;
        }
        proof {
            if ks0.contains(key.view_key()) {
                let j = choose|j: int| 0 <= j < ks0.len() && ks0[j] == key.view_key();
                assert(self.keys@[j].view_key() == key.view_key());
            }
        }
        let evict = self.keys.len() >= SWARM_FLOW_FIELD_CACHE_ENTRY_LIMIT;
        if evict {
            let ghost k0 = self.keys@;
            let ghost m0 = self.maps@;
            self.keys.remove(0);
            self.maps.remove(0);
            self.eviction_count = self.eviction_count + 1;
            proof {
                assert(self.spec_keys() =~= ks0.drop_first());
                assert forall|a: int| 0 <= a < self.maps@.len() implies swarm_entry_matches(
                    self.keys@[a].view_key(),
                    #[trigger] self.maps@[a],
                ) by {
                    assert(self.maps@[a] == m0[a + 1]);
                    assert(self.keys@[a] == k0[a + 1]);
                }
            }
        }
        let ghost ks1 = self.spec_keys();
        proof {
            assert(swarm_keys_sorted(ks1));
            assert(!ks1.contains(key.view_key()));
        }
        let cells = crate::movement_scale::copy_vec(blocked_cells);
        assert(!cells@.contains(key.target_cell));
        assert(key.bounds.min_x <= key.bounds.max_x && key.bounds.min_y <= key.bounds.max_y);
        let built = FlowFieldMap::build(key.bounds, key.target_cell, cells);
        let map = match built {
            Ok(m) => m,
            Err(e) => {
                proof {
                    assert(e == crate::movement_scale::FlowFieldError::InvalidBounds || e
                        == crate::movement_scale::FlowFieldError::GoalBlocked);
                    assert(false);
                }
                return 0;
            },
        };
        proof {
            assert forall|c: SpatialCell| #[trigger] map.spec_blocked().contains(cell_key(c) as u64)
                <==> (key.blocked@.contains(cell_key(c) as u64) && in_bounds(key.bounds, c.x as int, c.y as int)) by {
                lemma_cell_key(c, c);
                if key.blocked@.contains(cell_key(c) as u64) {
                    let i = choose|i: int| 0 <= i < blocked_cells@.len() && cell_key(blocked_cells@[i]) == cell_key(c) as u64;
                    lemma_cell_key(blocked_cells@[i], c);
                    assert(cells@[i] == c);
                }
                if cells@.contains(c) {
                    let i = choose|i: int| 0 <= i < cells@.len() && cells@[i] == c;
                    assert(cell_key(blocked_cells@[i]) == cell_key(c) as u64);
                }
            }
            assert(swarm_entry_matches(key.view_key(), map));
        }
        self.request_count = self.request_count + 1;
        self.build_count = self.build_count + 1;
        let ghost k0 = self.keys@;
        let ghost m0 = self.maps@;
        let mut p: usize = 0;
        while p < self.keys.len() && cache_key_less(&self.keys[p], &key)
            invariant
                self.keys@ == k0,
                p <= k0.len(),
                forall|j: int| 0 <= j < p ==> swarm_key_less(k0[j].view_key(), key.view_key()),
            decreases k0.len() - p,
        {
            p += 1;
        }
        proof {
            assert(ks1 == k0.map_values(|k: SwarmCacheKey| k.view_key()));
            assert forall|j: int| p <= j < k0.len() implies swarm_key_less(key.view_key(), k0[j].view_key()) by {
                assert(ks1[j] == k0[j].view_key());
                assert(ks1[p as int] == k0[p as int].view_key());
                assert(ks1.contains(k0[p as int].view_key()));
                assert(!swarm_key_less(k0[p as int].view_key(), key.view_key()));
                lemma_swarm_key_order(key.view_key(), k0[p as int].view_key(), k0[j].view_key());
                lemma_swarm_key_order(k0[p as int].view_key(), key.view_key(), k0[j].view_key());
                if j > p {
                    assert(swarm_key_less(ks1[p as int], ks1[j]));
                }
            }
        }
        self.keys.insert(p, key);
        self.maps.insert(p, map);
        proof {
            let k1 = self.keys@;
            let m1 = self.maps@;
            let kn = self.spec_keys();
            let kv = key.view_key();
            assert(kn =~= ks1.insert(p as int, kv));
            assert(kn[p as int] == kv);
            assert forall|x: SwarmCacheKeyView| #[trigger] kn.contains(x) <==> (ks1.contains(x) || x == kv) by {
                if kn.contains(x) {
                    let j = choose|j: int| 0 <= j < kn.len() && kn[j] == x;
                    if j < p {
                        assert(ks1[j] == x);
                    } else if j > p {
                        assert(ks1[j - 1] == x);
                    }
                }
                if ks1.contains(x) {
                    let j = choose|j: int| 0 <= j < ks1.len() && ks1[j] == x;
                    if j < p {
                        assert(kn[j] == x);
                    } else {
                        assert(kn[j + 1] == x);
                    }
                }
            }
            if evict {
                assert(ks1 == ks0.drop_first());
            } else {
                assert(ks1 == ks0);
            }
            assert forall|a: int, b: int| 0 <= a < b < k1.len() implies swarm_key_less(k1[a].view_key(), k1[b].view_key()) by {
                if b < p {
                    assert(k1[a] == k0[a] && k1[b] == k0[b]);
                    assert(swarm_key_less(ks1[a], ks1[b]));
                } else if b == p {
                    assert(k1[a] == k0[a]);
                } else if a < p {
                    assert(k1[a] == k0[a]);
                    assert(k1[b] == k0[b - 1]);
                    assert(swarm_key_less(ks1[a], key.view_key()));
                    assert(swarm_key_less(key.view_key(), ks1[b - 1]));
                    lemma_swarm_key_order(ks1[a], key.view_key(), ks1[b - 1]);
                } else if a == p {
                    assert(k1[b] == k0[b - 1]);
                } else {
                    assert(k1[a] == k0[a - 1]);
                    assert(k1[b] == k0[b - 1]);
                    assert(swarm_key_less(ks1[a - 1], ks1[b - 1]));
                }
            }
            assert forall|a: int| 0 <= a < m1.len() implies swarm_entry_matches(k1[a].view_key(), #[trigger] m1[a]) by {
                if a < p {
                    assert(m1[a] == m0[a]);
                    assert(k1[a] == k0[a]);
                } else if a > p {
                    assert(m1[a] == m0[a - 1]);
                    assert(k1[a] == k0[a - 1]);
                }
            }
        }
        p
    }

    /// The step from `from_cell` in the flow field of the key, built on a miss.
    fn step_from(&mut self, key: SwarmCacheKey, blocked_cells: &Vec<SpatialCell>, from_cell: SpatialCell) -> (r: FlowFieldStep)
        requires
            old(self).wf(),
            key.bounds.min_x <= key.bounds.max_x,
            key.bounds.min_y <= key.bounds.max_y,
            !blocked_cells@.contains(key.target_cell),
            old(self).request_count < u64::MAX,
            keys_of_cells(key.blocked@, blocked_cells@),
        ensures
            final(self).wf(),
            cache_step(*old(self), *final(self), key.view_key()),
            r == keyed_flow_step(key.view_key(), from_cell),
    {
        let cell_size_mm = key.cell_size_mm;
        let ghost kv = key.view_key();
        let i = self.entry_for(key, blocked_cells);
        let r = self.maps[i].step_from(from_cell, cell_size_mm);
        proof {
            lemma_keyed_flow_step(kv, self.maps@[i as int], from_cell);
        }
        r
    }
}

/// One request of the cache: a hit leaves the entries alone; a miss evicts the least key when
/// the cache is full, then adds the key in order.
pub open spec fn cache_step(before: SwarmFlowFieldCache, after: SwarmFlowFieldCache, key: SwarmCacheKeyView) -> bool {
    let b = before.spec_stats();
    let a = after.spec_stats();
    let hit = before.spec_keys().contains(key);
    let full = before.spec_keys().len() >= SWARM_FLOW_FIELD_CACHE_ENTRY_LIMIT;
    let kept = if full { before.spec_keys().drop_first() } else { before.spec_keys() };
    &&& a.request_count == b.request_count + 1
    &&& hit ==> a.hit_count == b.hit_count + 1 && a.build_count == b.build_count && a.eviction_count == b.eviction_count
        && after.spec_keys() == before.spec_keys()
    &&& !hit ==> a.hit_count == b.hit_count && a.build_count == b.build_count + 1 && a.eviction_count == b.eviction_count
        + (if full { 1int } else { 0int }) && after.spec_keys().len() == kept.len() + 1 && after.spec_keys().contains(key)
        && forall|x: SwarmCacheKeyView| #[trigger] after.spec_keys().contains(x) <==> (kept.contains(x) || x == key)
}

/// The keys of a cell set are the keys of its cells.
proof fn lemma_cell_set_keys(keys: Seq<u64>, cells: Seq<SpatialCell>)
    requires
        cell_set_ok(keys, cells),
    ensures
        keys_of_cells(keys, cells),
{
    assert forall|k: u64| #[trigger] keys.contains(k) <==> exists|i: int| 0 <= i < cells.len() && cell_key(cells[i]) == k by {
        if keys.contains(k) {
            let i = choose|i: int| 0 <= i < keys.len() && keys[i] == k;
            assert(cell_key(cells[i]) == k);
        }
        if exists|i: int| 0 <= i < cells.len() && cell_key(cells[i]) == k {
            let i = choose|i: int| 0 <= i < cells.len() && cell_key(cells[i]) == k;
            assert(keys[i] == k);
        }
    }
}

/// The cells of a list as a set: increasing keys with their cells.
fn cell_set_of(cells: &Vec<SpatialCell>) -> (r: (Vec<u64>, Vec<SpatialCell>))
    ensures
        cell_set_ok(r.0@, r.1@),
        keys_of_cells(r.0@, cells@),
{
    let mut keys: Vec<u64> = Vec::new();
    let mut out: Vec<SpatialCell> = Vec::new();
    let mut i: usize = 0;
    while i < cells.len()
        invariant
            i <= cells@.len(),
            cell_set_ok(keys@, out@),
            forall|k: u64| #[trigger] keys@.contains(k) <==> exists|j: int| 0 <= j < i && cell_key(cells@[j]) == k,
        decreases cells@.len() - i,
    {
        let ghost k0 = keys@;
        add_cell(&mut keys, &mut out, cells[i]);
        proof {
            assert forall|k: u64| #[trigger] keys@.contains(k) <==> exists|j: int| 0 <= j < i + 1 && cell_key(cells@[j]) == k by {
                if exists|j: int| 0 <= j < i + 1 && cell_key(cells@[j]) == k {
                    let j = choose|j: int| 0 <= j < i + 1 && cell_key(cells@[j]) == k;
                    if j < i {
                        assert(k0.contains(k));
                    }
                }
                if keys@.contains(k) && k != cell_key(cells@[i as int]) {
                    assert(k0.contains(k));
                }
            }
        }
        i += 1;
    }
    (keys, out)
}

// ---------------------------------------------------------------------------------------------
// Movement helpers
// ---------------------------------------------------------------------------------------------

/// A set of cells as increasing cell keys, with the cells beside them.
pub open spec fn cell_set_ok(keys: Seq<u64>, cells: Seq<SpatialCell>) -> bool {
    &&& strictly_increasing(keys)
    &&& keys.len() == cells.len()
    &&& forall|i: int| 0 <= i < keys.len() ==> keys[i] == cell_key(#[trigger] cells[i])
}

fn add_cell(keys: &mut Vec<u64>, cells: &mut Vec<SpatialCell>, c: SpatialCell)
    requires
        cell_set_ok(old(keys)@, old(cells)@),
    ensures
        cell_set_ok(final(keys)@, final(cells)@),
        final(keys)@.len() <= old(keys)@.len() + 1,
        forall|k: u64| #[trigger] final(keys)@.contains(k) <==> (old(keys)@.contains(k) || k == cell_key(c)),
        forall|x: SpatialCell| #[trigger] final(cells)@.contains(x) <==> (old(cells)@.contains(x) || x == c),
{
    let k = cell_key_of(c);
    let i = lower_bound(keys, k);
    if i < keys.len() && keys[i] == k {
        proof {
            assert forall|x: SpatialCell| #[trigger] cells@.contains(x) <==> (cells@.contains(x) || x == c) by {
                if x == c {
                    lemma_cell_key(cells@[i as int], c);
                    assert(cells@[i as int] == c);
                }
            }
        }
        return;
    }
    proof {
        lemma_insert_keeps_increasing(keys@, i as int, k);
    }
    let ghost c0 = cells@;
    let ghost k0 = keys@;
    keys.insert(i, k);
    cells.insert(i, c);
    proof {
        assert forall|j: int| 0 <= j < keys@.len() implies keys@[j] == cell_key(#[trigger] cells@[j]) by {
            if j < i {
                assert(keys@[j] == k0[j] && cells@[j] == c0[j]);
            } else if j > i {
                assert(keys@[j] == k0[j - 1] && cells@[j] == c0[j - 1]);
            }
        }
        assert forall|x: u64| #[trigger] keys@.contains(x) <==> (k0.contains(x) || x == k) by {
            if keys@.contains(x) {
                let j = choose|j: int| 0 <= j < keys@.len() && keys@[j] == x;
                if j < i {
                    assert(k0[j] == x);
                } else if j > i {
                    assert(k0[j - 1] == x);
                }
            }
            if k0.contains(x) {
                let j = choose|j: int| 0 <= j < k0.len() && k0[j] == x;
                if j < i {
                    assert(keys@[j] == x);
                } else {
                    assert(keys@[j + 1] == x);
                }
            }
            if x == k {
                assert(keys@[i as int] == k);
            }
        }
        assert forall|x: SpatialCell| #[trigger] cells@.contains(x) <==> (c0.contains(x) || x == c) by {
            if cells@.contains(x) {
                let j = choose|j: int| 0 <= j < cells@.len() && cells@[j] == x;
                if j < i {
                    assert(c0[j] == x);
                } else if j > i {
                    assert(c0[j - 1] == x);
                }
            }
            if c0.contains(x) {
                let j = choose|j: int| 0 <= j < c0.len() && c0[j] == x;
                if j < i {
                    assert(cells@[j] == x);
                } else {
                    assert(cells@[j + 1] == x);
                }
            }
            if x == c {
                assert(cells@[i as int] == c);
            }
        }
    }
}

/// The cell of a position on the movement grid, with the cell size raised to at least 1.
pub open spec fn preview_cell(position: WorldPosition, cell_size_mm: i32) -> SpatialCell {
    cell_of(position, if cell_size_mm < 1 { 1 } else { cell_size_mm as int })
}

fn swarm_preview_cell_for_position(position: WorldPosition, cell_size_mm: i32) -> (r: SpatialCell)
    ensures
        r == preview_cell(position, cell_size_mm),
{
    let cell_size_mm = if cell_size_mm < 1 { 1 } else { cell_size_mm };
    cell_for(position, cell_size_mm)
}

fn min_i32(a: i32, b: i32) -> (r: i32)
    ensures
        r == if a <= b { a } else { b },
{
    if a <= b { a } else { b }
}

fn max_i32(a: i32, b: i32) -> (r: i32)
    ensures
        r == if a >= b { a } else { b },
{
    if a >= b { a } else { b }
}

/// The cells that a map shape blocks: its rectangle grown by the clearance, on the movement
/// grid, clipped to the bounds.
pub open spec fn shape_blocker_rect(shape: MapShape, cell_size_mm: i32, bounds: FlowFieldBounds, clearance_mm: i32) -> (
    int,
    int,
    int,
    int,
) {
    let clearance = if clearance_mm < 0 { 0int } else { clearance_mm as int };
    let grow_x = clamp_i32(shape.half_extents_mm.x_mm + clearance);
    let grow_y = clamp_i32(shape.half_extents_mm.y_mm + clearance);
    let min_cell = preview_cell(
        WorldPosition { x_mm: clamp_i32(shape.center.x_mm - grow_x) as i32, y_mm: clamp_i32(shape.center.y_mm - grow_y) as i32 },
        cell_size_mm,
    );
    let max_cell = preview_cell(
        WorldPosition { x_mm: clamp_i32(shape.center.x_mm + grow_x) as i32, y_mm: clamp_i32(shape.center.y_mm + grow_y) as i32 },
        cell_size_mm,
    );
    (
        if min_cell.x >= bounds.min_x { min_cell.x as int } else { bounds.min_x as int },
        if max_cell.x <= bounds.max_x { max_cell.x as int } else { bounds.max_x as int },
        if min_cell.y >= bounds.min_y { min_cell.y as int } else { bounds.min_y as int },
        if max_cell.y <= bounds.max_y { max_cell.y as int } else { bounds.max_y as int },
    )
}

/// Whether a cell lies in a rectangle of cells (least and greatest x, least and greatest y).
pub open spec fn in_cell_rect(c: SpatialCell, r: (int, int, int, int)) -> bool {
    r.0 <= c.x <= r.1 && r.2 <= c.y <= r.3
}

fn add_shape_blocker_cells(
    keys: &mut Vec<u64>,
    cells: &mut Vec<SpatialCell>,
    shape: &MapShape,
    cell_size_mm: i32,
    bounds: FlowFieldBounds,
    clearance_mm: i32,
)
    requires
        cell_set_ok(old(keys)@, old(cells)@),
    ensures
        cell_set_ok(final(keys)@, final(cells)@),
        forall|c: SpatialCell| #[trigger] final(cells)@.contains(c) <==> (old(cells)@.contains(c) || in_cell_rect(
            c,
            shape_blocker_rect(*shape, cell_size_mm, bounds, clearance_mm),
        )),
{
    let ghost rect = shape_blocker_rect(*shape, cell_size_mm, bounds, clearance_mm);
    let ghost c0 = cells@;
    let cell_size_mm = if cell_size_mm < 1 { 1 } else { cell_size_mm };
    let clearance_mm = if clearance_mm < 0 { 0 } else { clearance_mm };
    let grow_x = sat_add_i32(shape.half_extents_mm.x_mm, clearance_mm);
    let grow_y = sat_add_i32(shape.half_extents_mm.y_mm, clearance_mm);
    let min_cell = swarm_preview_cell_for_position(
        WorldPosition { x_mm: sat_sub_i32(shape.center.x_mm, grow_x), y_mm: sat_sub_i32(shape.center.y_mm, grow_y) },
        cell_size_mm,
    );
    let max_cell = swarm_preview_cell_for_position(
        WorldPosition { x_mm: sat_add_i32(shape.center.x_mm, grow_x), y_mm: sat_add_i32(shape.center.y_mm, grow_y) },
        cell_size_mm,
    );
    let min_x = max_i32(min_cell.x, bounds.min_x);
    let max_x = min_i32(max_cell.x, bounds.max_x);
    let min_y = max_i32(min_cell.y, bounds.min_y);
    let max_y = min_i32(max_cell.y, bounds.max_y);
    assert(rect == (min_x as int, max_x as int, min_y as int, max_y as int));
    if min_x > max_x || min_y > max_y {
        return;
    }
    let mut x: i64 = min_x as i64;
    while x <= max_x as i64
        invariant
            min_x as i64 <= x <= max_x as i64 + 1,
            min_y <= max_y,
            rect == (min_x as int, max_x as int, min_y as int, max_y as int),
            cell_set_ok(keys@, cells@),
            forall|c: SpatialCell| #[trigger] cells@.contains(c) <==> (c0.contains(c) || (in_cell_rect(c, rect) && c.x < x)),
        decreases max_x as i64 + 1 - x,
    {
        let mut y: i64 = min_y as i64;
        while y <= max_y as i64
            invariant
                min_x as i64 <= x <= max_x as i64,
                min_y as i64 <= y <= max_y as i64 + 1,
                rect == (min_x as int, max_x as int, min_y as int, max_y as int),
                cell_set_ok(keys@, cells@),
                forall|c: SpatialCell| #[trigger] cells@.contains(c) <==> (c0.contains(c) || (in_cell_rect(c, rect) && (c.x
                    < x || (c.x == x && c.y < y)))),
            decreases max_y as i64 + 1 - y,
        {
            add_cell(keys, cells, SpatialCell { x: x as i32, y: y as i32 });
            y = y + 1;
        }
        x = x + 1;
    }
}

/// The cells that a map shape blocks, in increasing cell order: its rectangle grown by the
/// clearance (at least 0) on a grid of the cell size (at least 1), clipped to the bounds.
pub fn swarm_blocker_cells_for_map_shape(shape: &MapShape, cell_size_mm: i32, bounds: FlowFieldBounds, clearance_mm: i32) -> (r:
    Vec<SpatialCell>)
    ensures
        forall|i: int, j: int| 0 <= i < j < r@.len() ==> cell_key(r@[i]) < cell_key(r@[j]),
        forall|c: SpatialCell| #[trigger] r@.contains(c) <==> in_cell_rect(c, shape_blocker_rect(*shape, cell_size_mm, bounds, clearance_mm)),
{
    let mut keys: Vec<u64> = Vec::new();
    let mut cells: Vec<SpatialCell> = Vec::new();
    add_shape_blocker_cells(&mut keys, &mut cells, shape, cell_size_mm, bounds, clearance_mm);
    proof {
        assert forall|i: int, j: int| 0 <= i < j < cells@.len() implies cell_key(cells@[i]) < cell_key(cells@[j]) by {
            assert(keys@[i] == cell_key(cells@[i]));
            assert(keys@[j] == cell_key(cells@[j]));
        }
    }
    cells
}

/// The least and greatest cell coordinates (x, y, x, y) of the first `n` sampled zombies and
/// their targets, starting from the first zombie's cell.
pub open spec fn sample_cell_extent(samples: Seq<SwarmBehaviorSample>, active: Seq<SwarmEntity>, cell_size_mm: i32, n: nat) -> (
    int,
    int,
    int,
    int,
)
    decreases n,
{
    if n == 0 {
        let f = preview_cell(active[0].position, cell_size_mm);
        (f.x as int, f.y as int, f.x as int, f.y as int)
    } else {
        let e = sample_cell_extent(samples, active, cell_size_mm, (n - 1) as nat);
        let a = preview_cell(active[n - 1].position, cell_size_mm);
        let t = preview_cell(samples[n - 1].intent_target, cell_size_mm);
        let lo_x = if a.x <= t.x { a.x as int } else { t.x as int };
        let lo_y = if a.y <= t.y { a.y as int } else { t.y as int };
        let hi_x = if a.x >= t.x { a.x as int } else { t.x as int };
        let hi_y = if a.y >= t.y { a.y as int } else { t.y as int };
        (
            if e.0 <= lo_x { e.0 } else { lo_x },
            if e.1 <= lo_y { e.1 } else { lo_y },
            if e.2 >= hi_x { e.2 } else { hi_x },
            if e.3 >= hi_y { e.3 } else { hi_y },
        )
    }
}

/// The bounds of the flow fields of a movement step: the cells of the sampled zombies and of
/// their targets, grown by two cells on each side; the origin cell when nothing is sampled.
pub open spec fn movement_flow_bounds(samples: Seq<SwarmBehaviorSample>, active: Seq<SwarmEntity>, cell_size_mm: i32) -> FlowFieldBounds {
    if samples.len() == 0 {
        FlowFieldBounds { min_x: 0, min_y: 0, max_x: 0, max_y: 0 }
    } else {
        let e = sample_cell_extent(samples, active, cell_size_mm, samples.len());
        FlowFieldBounds {
            min_x: clamp_i32(e.0 - 2) as i32,
            min_y: clamp_i32(e.1 - 2) as i32,
            max_x: clamp_i32(e.2 + 2) as i32,
            max_y: clamp_i32(e.3 + 2) as i32,
        }
    }
}

proof fn lemma_extent_ordered(samples: Seq<SwarmBehaviorSample>, active: Seq<SwarmEntity>, cell_size_mm: i32, n: nat)
    ensures
        ({
            let e = sample_cell_extent(samples, active, cell_size_mm, n);
            &&& i32::MIN <= e.0 <= e.2 <= i32::MAX
            &&& i32::MIN <= e.1 <= e.3 <= i32::MAX
        }),
    decreases n,
{
    if n > 0 {
        lemma_extent_ordered(samples, active, cell_size_mm, (n - 1) as nat);
    }
}

/// The bounds of the flow fields for a movement step: the cells of the sampled zombies and of
/// their targets, grown by two cells on each side.
fn swarm_preview_flow_bounds(samples: &Vec<SwarmBehaviorSample>, active: &Vec<SwarmEntity>, cell_size_mm: i32) -> (r: FlowFieldBounds)
    requires
        samples@.len() <= active@.len(),
        forall|i: int| 0 <= i < samples@.len() ==> (#[trigger] samples@[i]).entity_id == active@[i].entity_id,
    ensures
        r.min_x <= r.max_x,
        r.min_y <= r.max_y,
        r == movement_flow_bounds(samples@, active@, cell_size_mm),
{
    if samples.len() == 0 {
        return FlowFieldBounds { min_x: 0, min_y: 0, max_x: 0, max_y: 0 };
    }
    let first = swarm_preview_cell_for_position(active[0].position, cell_size_mm);
    let mut min_x = first.x;
    let mut min_y = first.y;
    let mut max_x = first.x;
    let mut max_y = first.y;
    let mut i: usize = 0;
    while i < samples.len()
        invariant
            i <= samples@.len(),
            samples@.len() <= active@.len(),
            min_x <= max_x,
            min_y <= max_y,
            sample_cell_extent(samples@, active@, cell_size_mm, i as nat) == (min_x as int, min_y as int, max_x as int, max_y as int),
        decreases samples@.len() - i,
    {
        let a = swarm_preview_cell_for_position(active[i].position, cell_size_mm);
        let t = swarm_preview_cell_for_position(samples[i].intent_target, cell_size_mm);
        min_x = min_i32(min_x, min_i32(a.x, t.x));
        min_y = min_i32(min_y, min_i32(a.y, t.y));
        max_x = max_i32(max_x, max_i32(a.x, t.x));
        max_y = max_i32(max_y, max_i32(a.y, t.y));
        i += 1;
    }
    FlowFieldBounds {
        min_x: sat_sub_i32(min_x, 2),
        min_y: sat_sub_i32(min_y, 2),
        max_x: sat_add_i32(max_x, 2),
        max_y: sat_add_i32(max_y, 2),
    }
}

/// The cells that block the flow fields inside some bounds: the rectangles of the map shapes,
/// grown by the clearance, when the obstacles came from a map; else the cells of the obstacle
/// bodies that lie inside the bounds.
pub open spec fn blocker_cells(
    shapes: Seq<MapShape>,
    obstacles: Seq<CollisionBody>,
    cell_size_mm: i32,
    bounds: FlowFieldBounds,
    clearance_mm: i32,
) -> Set<SpatialCell> {
    if shapes.len() > 0 {
        Set::new(|c: SpatialCell| exists|j: int| 0 <= j < shapes.len() && in_cell_rect(c, shape_blocker_rect(shapes[j], cell_size_mm, bounds, clearance_mm)))
    } else {
        Set::new(|c: SpatialCell| exists|j: int| 0 <= j < obstacles.len() && preview_cell(obstacles[j].position, cell_size_mm) == c
            && in_bounds(bounds, c.x as int, c.y as int))
    }
}

impl SwarmState {
    /// The cells that block the flow fields: those of the map shapes when the obstacles came
    /// from a map, else the cells of the obstacle bodies inside the bounds.
    fn static_obstacle_blocker_cells(&self, cell_size_mm: i32, bounds: FlowFieldBounds, clearance_mm: i32) -> (r: (
        Vec<u64>,
        Vec<SpatialCell>,
    ))
        requires
            self.wf(),
        ensures
            cell_set_ok(r.0@, r.1@),
            forall|c: SpatialCell| #[trigger] r.1@.contains(c) <==> blocker_cells(
                self.spec_obstacle_shapes(),
                self.spec_obstacles(),
                cell_size_mm,
                bounds,
                clearance_mm,
            ).contains(c),
    {
        let mut keys: Vec<u64> = Vec::new();
        let mut cells: Vec<SpatialCell> = Vec::new();
        let ghost shapes = self.spec_obstacle_shapes();
        let ghost target = blocker_cells(shapes, self.spec_obstacles(), cell_size_mm, bounds, clearance_mm);
        if self.static_obstacle_shapes.len() > 0 {
            let mut i: usize = 0;
            while i < self.static_obstacle_shapes.len()
                invariant
                    i <= self.static_obstacle_shapes@.len(),
                    shapes == self.static_obstacle_shapes@,
                    cell_set_ok(keys@, cells@),
                    forall|c: SpatialCell| #[trigger] cells@.contains(c) <==> exists|j: int| 0 <= j < i && in_cell_rect(c,
                        shape_blocker_rect(shapes[j], cell_size_mm, bounds, clearance_mm)),
                decreases self.static_obstacle_shapes@.len() - i,
            {
                add_shape_blocker_cells(&mut keys, &mut cells, &self.static_obstacle_shapes[i], cell_size_mm, bounds, clearance_mm);
                proof {
                    assert forall|c: SpatialCell| #[trigger] cells@.contains(c) <==> exists|j: int| 0 <= j < i + 1 && in_cell_rect(c,
                        shape_blocker_rect(shapes[j], cell_size_mm, bounds, clearance_mm)) by {
                        if in_cell_rect(c, shape_blocker_rect(shapes[i as int], cell_size_mm, bounds, clearance_mm)) {
                            assert(exists|j: int| 0 <= j < i + 1 && in_cell_rect(c, shape_blocker_rect(shapes[j], cell_size_mm, bounds, clearance_mm)));
                        }
                    }
                }
                i += 1;
            }
            proof {
                assert forall|c: SpatialCell| #[trigger] cells@.contains(c) <==> target.contains(c) by {}
            }
            return (keys, cells);
        }
        let obstacles = self.static_obstacles.bodies();
        let mut i: usize = 0;
        while i < obstacles.len()
            invariant
                i <= obstacles@.len(),
                obstacles@ == self.spec_obstacles(),
                cell_set_ok(keys@, cells@),
                forall|c: SpatialCell| #[trigger] cells@.contains(c) <==> exists|j: int| 0 <= j < i && preview_cell(obstacles@[j].position, cell_size_mm)
                    == c && in_bounds(bounds, c.x as int, c.y as int),
            decreases obstacles@.len() - i,
        {
            let cell = swarm_preview_cell_for_position(obstacles[i].position, cell_size_mm);
            if bounds.contains(cell) {
                add_cell(&mut keys, &mut cells, cell);
            }
            proof {
                assert forall|c: SpatialCell| #[trigger] cells@.contains(c) <==> exists|j: int| 0 <= j < i + 1 && preview_cell(
                    obstacles@[j].position,
                    cell_size_mm,
                ) == c && in_bounds(bounds, c.x as int, c.y as int) by {
                    if c == cell && in_bounds(bounds, c.x as int, c.y as int) {
                        assert(preview_cell(obstacles@[i as int].position, cell_size_mm) == c);
                    }
                }
            }
            i += 1;
        }
        proof {
            assert forall|c: SpatialCell| #[trigger] cells@.contains(c) <==> target.contains(c) by {}
        }
        (keys, cells)
    }
}

/// The blocked cells without one cell.
fn without_cell(keys: &Vec<u64>, cells: &Vec<SpatialCell>, target: SpatialCell) -> (r: (Vec<u64>, Vec<SpatialCell>))
    requires
        cell_set_ok(keys@, cells@),
    ensures
        cell_set_ok(r.0@, r.1@),
        !r.1@.contains(target),
        forall|c: SpatialCell| #[trigger] r.1@.contains(c) <==> (cells@.contains(c) && c != target),
{
    let tk = cell_key_of(target);
    let mut out_keys: Vec<u64> = Vec::new();
    let mut out_cells: Vec<SpatialCell> = Vec::new();
    let mut i: usize = 0;
    while i < keys.len()
        invariant
            cell_set_ok(keys@, cells@),
            i <= keys@.len(),
            cell_set_ok(out_keys@, out_cells@),
            tk == cell_key(target),
            !out_cells@.contains(target),
            forall|a: int| #![trigger out_keys@[a]] 0 <= a < out_keys@.len() ==> exists|b: int| 0 <= b < i && out_keys@[a] == #[trigger] keys@[b],
            out_keys@.len() <= i,
            forall|c: SpatialCell| #[trigger] out_cells@.contains(c) <==> (cells@.take(i as int).contains(c) && c != target),
        decreases keys@.len() - i,
    {
        let ghost oc = out_cells@;
        proof {
            lemma_cell_key(cells@[i as int], target);
            assert(cells@.take(i + 1) =~= cells@.take(i as int).push(cells@[i as int]));
        }
        if keys[i] != tk {
            let ghost k0 = out_keys@;
            proof {
                lemma_cell_key(cells@[i as int], target);
                assert forall|a: int, b: int| 0 <= a < b < k0.push(keys@[i as int]).len() implies k0.push(keys@[i as int])[a]
                    < k0.push(keys@[i as int])[b] by {
                    if b == k0.len() {
                        let c = choose|c: int| 0 <= c < i && k0[a] == keys@[c];
                        assert(keys@[c] < keys@[i as int]);
                    }
                }
            }
            out_keys.push(keys[i]);
            out_cells.push(cells[i]);
            proof {
                assert forall|a: int| #![trigger out_keys@[a]] 0 <= a < out_keys@.len() implies exists|b: int| 0 <= b < i + 1 && out_keys@[a]
                    == #[trigger] keys@[b] by {
                    if a < k0.len() {
                        let c = choose|c: int| 0 <= c < i && k0[a] == keys@[c];
                        assert(out_keys@[a] == keys@[c]);
                    } else {
                        assert(out_keys@[a] == keys@[i as int]);
                    }
                }
                assert forall|a: int| 0 <= a < out_keys@.len() implies out_keys@[a] == cell_key(#[trigger] out_cells@[a]) by {
                }
            }
        }
        proof {
            let ci = cells@[i as int];
            let t1 = cells@.take(i + 1);
            let t0 = cells@.take(i as int);
            if ci != target {
                assert(out_cells@ == oc.push(ci));
            } else {
                assert(out_cells@ == oc);
            }
            assert forall|c: SpatialCell| #[trigger] out_cells@.contains(c) <==> (t1.contains(c) && c != target) by {
                if out_cells@.contains(c) {
                    let j = choose|j: int| 0 <= j < out_cells@.len() && out_cells@[j] == c;
                    if j < oc.len() {
                        assert(oc[j] == c);
                        assert(oc.contains(c));
                        let b = choose|b: int| 0 <= b < i && t0[b] == c;
                        assert(t1[b] == c);
                    } else {
                        assert(c == ci);
                        assert(t1[i as int] == c);
                    }
                }
                if t1.contains(c) && c != target {
                    let b = choose|b: int| 0 <= b < i + 1 && t1[b] == c;
                    if b < i {
                        assert(t0[b] == c);
                        assert(oc.contains(c));
                        let j = choose|j: int| 0 <= j < oc.len() && oc[j] == c;
                        assert(out_cells@[j] == c);
                    } else {
                        assert(c == ci);
                        assert(out_cells@[oc.len() as int] == c);
                    }
                }
            }
        }
        i += 1;
    }
    assert(cells@.take(keys@.len() as int) =~= cells@);
    (out_keys, out_cells)
}

// ---------------------------------------------------------------------------------------------
// Movement
// ---------------------------------------------------------------------------------------------

/// Two entity lists that differ at most in positions.
pub open spec fn same_but_positions(a: Seq<SwarmEntity>, b: Seq<SwarmEntity>) -> bool {
    &&& a.len() == b.len()
    &&& forall|i: int| 0 <= i < a.len() ==> (#[trigger] b[i]) == (SwarmEntity { position: b[i].position, ..a[i] })
}

/// How many zombies a movement step samples: the first ones by id, up to the limit.
pub open spec fn movement_sample_count(active_len: nat, sample_limit: usize) -> nat {
    if sample_limit < active_len { sample_limit as nat } else { active_len }
}

/// What a movement step keeps and reports of every state, whatever the flow fields and the
/// collision worlds decide.
pub open spec fn movement_step_facts(
    before: SwarmState,
    after: SwarmState,
    r: SwarmMovementApplyReport,
    tick: Tick,
    focus: WorldPosition,
    sample_limit: usize,
    correction_limit_abs_mm: Option<u32>,
) -> bool {
    let n = movement_sample_count(before.spec_active().len(), sample_limit);
    let best = best_sample(aggro_samples(before.spec_config(), tick, before.spec_aggro()));
    &&& after.wf()
    &&& after.spec_config() == before.spec_config()
    &&& after.spec_spawn_points() == before.spec_spawn_points()
    &&& after.spec_obstacles() == before.spec_obstacles()
    &&& after.spec_obstacle_shapes() == before.spec_obstacle_shapes()
    &&& after.spec_aggro() == before.spec_aggro()
    &&& after.spec_next_id() == before.spec_next_id()
    &&& after.spec_next_spawn_index() == before.spec_next_spawn_index()
    &&& after.spec_spawned_total() == before.spec_spawned_total()
    &&& same_but_positions(before.spec_active(), after.spec_active())
    &&& after.spec_cache_requests() == before.spec_cache_requests() + n
    &&& r.schema@ == SWARM_SCHEMA@
    &&& r.tick == tick
    &&& r.sample_count == n
    &&& r.samples@.len() == n
    &&& forall|k: int|
        0 <= k < n ==> {
            let e = before.spec_active()[k];
            let b = behavior_sample(before.spec_config(), best, e, focus);
            &&& (#[trigger] r.samples@[k]).entity_id == e.entity_id
            &&& r.samples@[k].from_position == e.position
            &&& r.samples@[k].intent_kind == b.intent_kind
            &&& r.samples@[k].intent_target == b.intent_target
            &&& r.samples@[k].final_position == after.spec_active()[k].position
        }
    &&& r.flow_field_query_count == n
    &&& r.flow_field_cache_request_count == n
    &&& r.flow_field_build_count == after.spec_cache().spec_stats().build_count - before.spec_cache().spec_stats().build_count
    &&& r.flow_field_cache_hit_count == after.spec_cache().spec_stats().hit_count - before.spec_cache().spec_stats().hit_count
    &&& r.flow_field_cache_eviction_count == after.spec_cache().spec_stats().eviction_count
        - before.spec_cache().spec_stats().eviction_count
    &&& r.flow_field_cache_entry_count == after.spec_cache().spec_keys().len()
    &&& r.applied_delta_count + r.blocked_delta_count == n
    &&& r.corrected_delta_count <= r.applied_delta_count
    &&& r.physics_candidate_count == r.applied_delta_count
    &&& r.movement_probe_correction_limit_abs_mm == correction_limit_abs_mm
    &&& r.physics_candidate_count == 0 ==> after.spec_active() == before.spec_active()
}

/// The increasing keys of a set of cells.
pub open spec fn set_keys(cells: Set<SpatialCell>) -> Seq<u64> {
    choose|ks: Seq<u64>|
        strictly_increasing(ks) && forall|k: u64| #[trigger] ks.contains(k) <==> exists|c: SpatialCell| cells.contains(c) && cell_key(c) == k
}

/// The keys of a cell set with the cells of a set are the set's keys.
proof fn lemma_set_keys(ks: Seq<u64>, cells: Seq<SpatialCell>, s: Set<SpatialCell>)
    requires
        cell_set_ok(ks, cells),
        forall|c: SpatialCell| #[trigger] cells.contains(c) <==> s.contains(c),
    ensures
        set_keys(s) == ks,
{
    assert forall|k: u64| #[trigger] ks.contains(k) <==> exists|c: SpatialCell| s.contains(c) && cell_key(c) == k by {
        if ks.contains(k) {
            let i = choose|i: int| 0 <= i < ks.len() && ks[i] == k;
            assert(cells.contains(cells[i]));
            assert(s.contains(cells[i]) && cell_key(cells[i]) == k);
        }
        if exists|c: SpatialCell| s.contains(c) && cell_key(c) == k {
            let c = choose|c: SpatialCell| s.contains(c) && cell_key(c) == k;
            assert(cells.contains(c));
            let i = choose|i: int| 0 <= i < cells.len() && cells[i] == c;
            assert(ks[i] == k);
        }
    }
    let ks2 = set_keys(s);
    assert(strictly_increasing(ks2) && forall|k: u64| #[trigger] ks2.contains(k) <==> exists|c: SpatialCell| s.contains(c) && cell_key(c) == k);
    crate::movement_scale::lemma_sorted_unique(ks, ks2);
}

/// The cell size of a movement step: at least 1.
pub open spec fn step_cell_size(cell_size_mm: i32) -> i32 {
    if cell_size_mm < 1 { 1 } else { cell_size_mm }
}

/// The behaviour samples of a movement step: those of the first zombies, up to the limit.
pub open spec fn step_behaviors(s: SwarmState, tick: Tick, focus: WorldPosition, sample_limit: usize) -> Seq<SwarmBehaviorSample> {
    let n = movement_sample_count(s.spec_active().len(), sample_limit);
    let best = best_sample(aggro_samples(s.spec_config(), tick, s.spec_aggro()));
    Seq::new(n, |k: int| behavior_sample(s.spec_config(), best, s.spec_active()[k], focus))
}

/// The key of a movement step's flow field towards a target cell: the step's bounds, the
/// target, and the static blockers inside the bounds other than the target.
pub open spec fn step_field_key(
    s: SwarmState,
    tick: Tick,
    focus: WorldPosition,
    sample_limit: usize,
    cell_size_mm: i32,
    target: SpatialCell,
) -> SwarmCacheKeyView {
    let cs = step_cell_size(cell_size_mm);
    let fb = movement_flow_bounds(step_behaviors(s, tick, focus, sample_limit), s.spec_active(), cs);
    let blockers = blocker_cells(s.spec_obstacle_shapes(), s.spec_obstacles(), cs, fb, s.spec_config().collision_radius_mm);
    (fb, target, set_keys(blockers.remove(target)), cs)
}

/// The flow-field step of the `k`-th sampled zombie of a movement step: from its cell, in the
/// field towards the cell of its intent target.
pub open spec fn step_flow(s: SwarmState, tick: Tick, focus: WorldPosition, sample_limit: usize, cell_size_mm: i32, k: int) -> FlowFieldStep {
    let b = step_behaviors(s, tick, focus, sample_limit)[k];
    keyed_flow_step(
        step_field_key(s, tick, focus, sample_limit, cell_size_mm, preview_cell(b.intent_target, cell_size_mm)),
        preview_cell(s.spec_active()[k].position, cell_size_mm),
    )
}

/// Every sample of a movement report took its zombie's flow-field step.
pub open spec fn movement_flow_facts(
    before: SwarmState,
    r: SwarmMovementApplyReport,
    tick: Tick,
    focus: WorldPosition,
    sample_limit: usize,
    cell_size_mm: i32,
) -> bool {
    forall|k: int|
        0 <= k < r.samples@.len() ==> {
            let f = step_flow(before, tick, focus, sample_limit, cell_size_mm, k);
            &&& (#[trigger] r.samples@[k]).flow_field_result == f.result
            &&& r.samples@[k].requested_delta == f.movement_delta
        }
}

/// The bodies of a movement step's collision world: the zombies', then the static obstacles.
pub open spec fn movement_bodies(s: SwarmState) -> Seq<CollisionBody> {
    s.spec_active().map_values(|e: SwarmEntity| entity_body(e)) + s.spec_obstacles()
}

impl SwarmState {
    pub fn movement_collision_bodies(&self) -> (r: Vec<CollisionBody>)
        requires
            self.wf(),
        ensures
            all_radii_positive(r@),
            r@ == movement_bodies(*self),
    {
        let mut bodies = self.collision_bodies();
        let obstacles = self.static_obstacles.bodies();
        proof {
            self.static_obstacles.lemma_wf();
        }
        let mut i: usize = 0;
        while i < obstacles.len()
            invariant
                i <= obstacles@.len(),
                obstacles@ == self.static_obstacles.spec_bodies(),
                forall|j: int| 0 <= j < obstacles@.len() ==> #[trigger] obstacles@[j].radius_mm > 0,
                all_radii_positive(bodies@),
                bodies@ == self.spec_active().map_values(|e: SwarmEntity| entity_body(e)) + obstacles@.take(i as int),
            decreases obstacles@.len() - i,
        {
            bodies.push(obstacles[i]);
            assert(obstacles@.take(i + 1) =~= obstacles@.take(i as int).push(obstacles@[i as int]));
            i += 1;
        }
        assert(obstacles@.take(obstacles@.len() as int) =~= obstacles@);
        bodies
    }

    /// Moves each active zombie to its body's position in the world, where there is one and
    /// it differs; returns how many moved.
    fn sync_positions_from_collision_world(&mut self, collision_world: &CollisionWorld) -> (r: usize)
        requires
            old(self).wf(),
            collision_world.wf(),
        ensures
            final(self).wf(),
            same_but_positions(old(self).spec_active(), final(self).spec_active()),
            r <= old(self).spec_active().len(),
            final(self).spec_config() == old(self).spec_config(),
            final(self).spec_spawn_points() == old(self).spec_spawn_points(),
            final(self).spec_obstacles() == old(self).spec_obstacles(),
            final(self).spec_obstacle_shapes() == old(self).spec_obstacle_shapes(),
            final(self).spec_aggro() == old(self).spec_aggro(),
            final(self).spec_next_id() == old(self).spec_next_id(),
            final(self).spec_next_spawn_index() == old(self).spec_next_spawn_index(),
            final(self).spec_spawned_total() == old(self).spec_spawned_total(),
            final(self).spec_cache_requests() == old(self).spec_cache_requests(),
            final(self).flow_field_cache == old(self).flow_field_cache,
            forall|i: int|
                0 <= i < old(self).spec_active().len() ==> (#[trigger] final(self).spec_active()[i]).position == match body_of(
                    collision_world.spec_bodies(),
                    old(self).spec_active()[i].entity_id,
                ) {
                    Some(b) => b.position,
                    None => old(self).spec_active()[i].position,
                },
    {
        let mut synced: usize = 0;
        let mut i: usize = 0;
        while i < self.active_entities.len()
            invariant
                self.wf(),
                collision_world.wf(),
                i <= self.active_entities@.len(),
                synced <= i,
                same_but_positions(old(self).spec_active(), self.active_entities@),
                self.config == old(self).config,
                self.spawn_points == old(self).spawn_points,
                self.static_obstacles == old(self).static_obstacles,
                self.static_obstacle_shapes == old(self).static_obstacle_shapes,
                self.aggro_trails == old(self).aggro_trails,
                self.next_entity_id == old(self).next_entity_id,
                self.next_spawn_point_index == old(self).next_spawn_point_index,
                self.spawned_total == old(self).spawned_total,
                self.flow_field_cache == old(self).flow_field_cache,
                forall|j: int|
                    0 <= j < i ==> (#[trigger] self.active_entities@[j]).position == match body_of(
                        collision_world.spec_bodies(),
                        old(self).spec_active()[j].entity_id,
                    ) {
                        Some(b) => b.position,
                        None => old(self).spec_active()[j].position,
                    },
                forall|j: int| i <= j < self.active_entities@.len() ==> #[trigger] self.active_entities@[j] == old(self).spec_active()[j],
            decreases self.active_entities@.len() - i,
        {
            let entity = self.active_entities[i];
            match collision_world.body(entity.entity_id) {
                Some(body) => {
                    if body.position.x_mm != entity.position.x_mm || body.position.y_mm != entity.position.y_mm {
                        let moved = SwarmEntity { position: body.position, ..entity };
                        let ghost a0 = self.active_entities@;
                        self.active_entities.set(i, moved);
                        proof {
                            let a1 = self.active_entities@;
                            assert forall|x: int, y: int| 0 <= x < y < a1.len() implies a1[x].entity_id.0 < a1[y].entity_id.0 by {
                                assert(a0[x].entity_id == a1[x].entity_id);
                                assert(a0[y].entity_id == a1[y].entity_id);
                            }
                            assert forall|x: int| 0 <= x < a1.len() implies (#[trigger] a1[x]).entity_id.0 < self.next_entity_id.0
                                || self.next_entity_id.0 == u64::MAX by {
                                assert(a0[x].entity_id == a1[x].entity_id);
                            }
                            assert forall|x: int| 0 <= x < a1.len() implies (#[trigger] a1[x]).collision_radius_mm
                                == self.config.collision_radius_mm by {
                                assert(a0[x].collision_radius_mm == a1[x].collision_radius_mm);
                            }
                        }
                        synced = synced + 1;
                    }
                },
                None => {},
            }
            i += 1;
        }
        synced
    }
}

/// Gives each sample its zombie's current position, where that moved since, and the delta
/// from where it started; returns how many samples changed.
fn sync_apply_samples_from_active_entities(samples: &mut Vec<SwarmMovementApplySample>, active: &Vec<SwarmEntity>) -> (r: usize)
    requires
        old(samples)@.len() <= active@.len(),
        forall|k: int| 0 <= k < old(samples)@.len() ==> (#[trigger] old(samples)@[k]).entity_id == active@[k].entity_id,
    ensures
        final(samples)@.len() == old(samples)@.len(),
        r <= old(samples)@.len(),
        forall|k: int|
            0 <= k < final(samples)@.len() ==> {
                let a = old(samples)@[k];
                let b = #[trigger] final(samples)@[k];
                &&& b.entity_id == a.entity_id
                &&& b.intent_kind == a.intent_kind
                &&& b.from_position == a.from_position
                &&& b.intent_target == a.intent_target
                &&& b.flow_field_result == a.flow_field_result
                &&& b.requested_delta == a.requested_delta
                &&& b.collision_decision == a.collision_decision
                &&& b.final_position == active@[k].position
                &&& b.applied_delta == synced_delta(a.applied_delta, a.final_position, a.from_position, active@[k].position)
            },
{
    let mut synced: usize = 0;
    let mut k: usize = 0;
    while k < samples.len()
        invariant
            samples@.len() == old(samples)@.len(),
            old(samples)@.len() <= active@.len(),
            k <= samples@.len(),
            synced <= k,
            forall|j: int| 0 <= j < old(samples)@.len() ==> (#[trigger] old(samples)@[j]).entity_id == active@[j].entity_id,
            forall|j: int|
                0 <= j < samples@.len() ==> {
                    let a = old(samples)@[j];
                    let b = #[trigger] samples@[j];
                    &&& b.entity_id == a.entity_id
                    &&& b.intent_kind == a.intent_kind
                    &&& b.from_position == a.from_position
                    &&& b.intent_target == a.intent_target
                    &&& b.flow_field_result == a.flow_field_result
                    &&& b.requested_delta == a.requested_delta
                    &&& b.collision_decision == a.collision_decision
                    &&& j < k ==> b.final_position == active@[j].position
                    &&& j < k ==> b.applied_delta == synced_delta(a.applied_delta, a.final_position, a.from_position, active@[j].position)
                    &&& k <= j ==> b == a
                },
        decreases samples@.len() - k,
    {
        let sample = samples[k];
        let entity = active[k];
        if sample.final_position.x_mm != entity.position.x_mm || sample.final_position.y_mm != entity.position.y_mm {
            let updated = SwarmMovementApplySample {
                final_position: entity.position,
                applied_delta: MovementDelta {
                    dx_mm: sat_sub_i32(entity.position.x_mm, sample.from_position.x_mm),
                    dy_mm: sat_sub_i32(entity.position.y_mm, sample.from_position.y_mm),
                },
                ..sample
            };
            samples.set(k, updated);
            synced = synced + 1;
        }
        k += 1;
    }
    synced
}

fn no_physics_step(world: &CollisionWorld, physics_iterations: usize, correction_limit_abs_mm: Option<u32>) -> (r: CollisionPhysicsStep)
    requires
        world.wf(),
    ensures
        r.initial_contact_count == overlap_contacts(world.spec_bodies(), world.spec_cell_size()).len(),
        r.iterations_requested == physics_iterations,
        r.iterations_run == 0,
        r.applied_correction_count == 0,
        r.applied_correction_abs_mm_total == 0,
        r.max_applied_correction_abs_mm == 0,
        r.correction_limit_abs_mm == correction_limit_abs_mm,
        r.clamped_correction_count == 0,
        r.final_contact_count == overlap_contacts(world.spec_bodies(), world.spec_cell_size()).len(),
{
    let contacts = world.detect_overlaps().len();
    CollisionPhysicsStep {
        initial_contact_count: contacts,
        iterations_requested: physics_iterations,
        iterations_run: 0,
        applied_correction_count: 0,
        applied_correction_abs_mm_total: 0,
        max_applied_correction_abs_mm: 0,
        correction_limit_abs_mm,
        clamped_correction_count: 0,
        final_contact_count: world.detect_overlaps().len(),
        resolved: true,
        claim_scope: "physics_step_only",
    }
}

impl SwarmState {
    /// The behaviour samples of the first `n` zombies.
    fn movement_behaviors(&self, tick: Tick, focus: WorldPosition, sample_limit: usize) -> (r: Vec<SwarmBehaviorSample>)
        requires
            self.wf(),
        ensures
            r@.len() == movement_sample_count(self.spec_active().len(), sample_limit),
            ({
                let best = best_sample(aggro_samples(self.spec_config(), tick, self.spec_aggro()));
                forall|k: int|
                    0 <= k < r@.len() ==> #[trigger] r@[k] == behavior_sample(
                        self.spec_config(),
                        best,
                        self.spec_active()[k],
                        focus,
                    )
            }),
    {
        let behavior = self.evaluate_behavior(tick, focus);
        let n = if sample_limit < behavior.samples.len() { sample_limit } else { behavior.samples.len() };
        let mut out: Vec<SwarmBehaviorSample> = Vec::new();
        let mut k: usize = 0;
        while k < n
            invariant
                k <= n,
                n <= behavior.samples@.len(),
                out@ == behavior.samples@.take(k as int),
            decreases n - k,
        {
            out.push(behavior.samples[k]);
            assert(out@ =~= behavior.samples@.take(k + 1));
            k += 1;
        }
        out
    }

    #[verifier::rlimit(100)]
    #[verifier::spinoff_prover]
    fn apply_flow_field_movement_step_with_optional_correction_limit(
        &mut self,
        tick: Tick,
        focus: WorldPosition,
        sample_limit: usize,
        cell_size_mm: i32,
        physics_iterations: usize,
        correction_limit_abs_mm: Option<u32>,
    ) -> (r: SwarmMovementApplyReport)
        requires
            old(self).wf(),
            old(self).spec_cache_requests() + sample_limit <= u64::MAX,
        ensures
            movement_step_facts(*old(self), *final(self), r, tick, focus, sample_limit, correction_limit_abs_mm),
            movement_flow_facts(*old(self), r, tick, focus, sample_limit, cell_size_mm),
            exists|ws: Seq<CollisionBody>|
                id_ordered_world(ws, movement_bodies(*old(self))) && #[trigger] single_probe_facts(
                    ws,
                    *old(self),
                    r,
                    tick,
                    focus,
                    sample_limit,
                    cell_size_mm,
                    correction_limit_abs_mm,
                ) && single_settle_facts(
                    ws,
                    *old(self),
                    *final(self),
                    r,
                    tick,
                    focus,
                    sample_limit,
                    cell_size_mm,
                    correction_limit_abs_mm,
                    physics_iterations,
                ),
            r.claim_scope@ == "swarm_movement_apply_opt_in"@,
    {
        let ghost cs_in = cell_size_mm;
        let cell_size_mm = if cell_size_mm < 1 { 1 } else { cell_size_mm };
        let movement_behaviors = self.movement_behaviors(tick, focus, sample_limit);
        let n = movement_behaviors.len();
        let flow_bounds = swarm_preview_flow_bounds(&movement_behaviors, &self.active_entities, cell_size_mm);
        let blockers = self.static_obstacle_blocker_cells(cell_size_mm, flow_bounds, self.config.collision_radius_mm);
        let ghost blocker_set = blocker_cells(
            self.spec_obstacle_shapes(),
            self.spec_obstacles(),
            cell_size_mm,
            flow_bounds,
            self.spec_config().collision_radius_mm,
        );
        proof {
            assert(movement_behaviors@ =~= step_behaviors(*self, tick, focus, sample_limit));
            assert(cell_size_mm == step_cell_size(cs_in));
            assert(flow_bounds == movement_flow_bounds(step_behaviors(*self, tick, focus, sample_limit), self.spec_active(), cell_size_mm));
        }
        let world_result = CollisionWorld::with_bodies(SWARM_COLLISION_CELL_SIZE_MM, self.movement_collision_bodies());
        let mut collision_world = world_result.unwrap();
        let ghost ws0 = collision_world.spec_bodies();
        assert(id_ordered_world(ws0, movement_bodies(*self))) by {
            reveal(id_ordered_world);
            collision_world.lemma_wf();
        }
        let requests_before = self.flow_field_cache.request_count;
        let builds_before = self.flow_field_cache.build_count;
        let hits_before = self.flow_field_cache.hit_count;
        let evictions_before = self.flow_field_cache.eviction_count;
        let ghost before = *self;
        proof {
            assert forall|c: SpatialCell| #[trigger] blockers.1@.contains(c) <==> blocker_set.contains(c) by {}
            assert forall|j: int| 0 <= j < before.spec_active().len() implies has_body(ws0, #[trigger] before.spec_active()[j].entity_id) by {
                let bs = movement_bodies(before);
                assert(bs[j] == entity_body(before.spec_active()[j]));
                lemma_inserted_map_has(bs, j);
            }
        }
        let mut flow_field_query_count: usize = 0;
        let mut flow_field_unreachable_count: usize = 0;
        let mut applied_delta_count: usize = 0;
        let mut corrected_delta_count: usize = 0;
        let mut blocked_delta_count: usize = 0;
        let mut movement_probe_clamped_correction_count: usize = 0;
        let mut physics_candidate_count: usize = 0;
        let mut samples: Vec<SwarmMovementApplySample> = Vec::new();
        let mut k: usize = 0;
        while k < n
            invariant
                self.wf(),
                collision_world.wf(),
                collision_world.spec_cell_size() == SWARM_COLLISION_CELL_SIZE_MM,
                n == movement_behaviors@.len(),
                n == movement_sample_count(before.spec_active().len(), sample_limit),
                n <= self.active_entities@.len(),
                k <= n,
                cell_set_ok(blockers.0@, blockers.1@),
                flow_bounds.min_x <= flow_bounds.max_x,
                flow_bounds.min_y <= flow_bounds.max_y,
                same_but_positions(before.spec_active(), self.active_entities@),
                forall|j: int| k <= j < self.active_entities@.len() ==> self.active_entities@[j] == before.spec_active()[j],
                ({
                    let best = best_sample(aggro_samples(before.spec_config(), tick, before.spec_aggro()));
                    forall|j: int|
                        0 <= j < n ==> #[trigger] movement_behaviors@[j] == behavior_sample(
                            before.spec_config(),
                            best,
                            before.spec_active()[j],
                            focus,
                        )
                }),
                samples@.len() == k,
                forall|j: int|
                    0 <= j < k ==> {
                        let e = before.spec_active()[j];
                        &&& (#[trigger] samples@[j]).entity_id == e.entity_id
                        &&& samples@[j].from_position == e.position
                        &&& samples@[j].intent_kind == movement_behaviors@[j].intent_kind
                        &&& samples@[j].intent_target == movement_behaviors@[j].intent_target
                        &&& samples@[j].flow_field_result == step_flow(before, tick, focus, sample_limit, cs_in, j).result
                        &&& samples@[j].requested_delta == step_flow(before, tick, focus, sample_limit, cs_in, j).movement_delta
                        &&& single_sample_ok(ws0, before, tick, focus, sample_limit, cs_in, correction_limit_abs_mm, samples@[j], j)
                    },
                before.wf(),
                collision_world.spec_bodies() == single_step_world(
                    ws0,
                    before,
                    tick,
                    focus,
                    sample_limit,
                    cs_in,
                    correction_limit_abs_mm,
                    k as nat,
                ),
                forall|j: int| 0 <= j < before.spec_active().len() ==> has_body(collision_world.spec_bodies(), #[trigger] before.spec_active()[j].entity_id),
                cell_size_mm == step_cell_size(cs_in),
                movement_behaviors@ == step_behaviors(before, tick, focus, sample_limit),
                flow_bounds == movement_flow_bounds(step_behaviors(before, tick, focus, sample_limit), before.spec_active(), cell_size_mm),
                blocker_set == blocker_cells(
                    before.spec_obstacle_shapes(),
                    before.spec_obstacles(),
                    cell_size_mm,
                    flow_bounds,
                    before.spec_config().collision_radius_mm,
                ),
                forall|c: SpatialCell| #[trigger] blockers.1@.contains(c) <==> blocker_set.contains(c),
                flow_field_query_count == k,
                flow_field_unreachable_count <= k,
                applied_delta_count + blocked_delta_count == k,
                movement_probe_clamped_correction_count == single_clamped_total(
                    ws0,
                    before,
                    tick,
                    focus,
                    sample_limit,
                    cs_in,
                    correction_limit_abs_mm,
                    k as nat,
                ),
                applied_delta_count == sample_decisions(samples@).filter(moving()).len(),
                corrected_delta_count == sample_decisions(samples@).filter(correcting()).len(),
                forall|j: int| 0 <= j < k ==> (#[trigger] self.active_entities@[j]).position == samples@[j].final_position,
                corrected_delta_count <= applied_delta_count,
                physics_candidate_count == applied_delta_count,
                physics_candidate_count == 0 ==> self.active_entities@ == before.spec_active(),
                self.config == before.config,
                self.spawn_points == before.spawn_points,
                self.static_obstacles == before.static_obstacles,
                self.static_obstacle_shapes == before.static_obstacle_shapes,
                self.aggro_trails == before.aggro_trails,
                self.next_entity_id == before.next_entity_id,
                self.next_spawn_point_index == before.next_spawn_point_index,
                self.spawned_total == before.spawned_total,
                self.flow_field_cache.request_count == requests_before + k,
                requests_before + sample_limit <= u64::MAX,
                n <= sample_limit,
                self.flow_field_cache.build_count >= builds_before,
                self.flow_field_cache.hit_count >= hits_before,
                self.flow_field_cache.build_count - builds_before + self.flow_field_cache.hit_count - hits_before == k,
                self.flow_field_cache.eviction_count >= evictions_before,
                self.flow_field_cache.eviction_count - evictions_before <= k,
                id_ordered_world(ws0, movement_bodies(before)),
            decreases n - k,
        {
            let entity = self.active_entities[k];
            let behavior = movement_behaviors[k];
            let entity_cell = swarm_preview_cell_for_position(entity.position, cell_size_mm);
            let target_cell = swarm_preview_cell_for_position(behavior.intent_target, cell_size_mm);
            let field = without_cell(&blockers.0, &blockers.1, target_cell);
            let key = SwarmCacheKey { bounds: flow_bounds, target_cell, blocked: field.0, cell_size_mm };
            proof {
                lemma_cell_set_keys(field.0@, field.1@);
                let tset = blocker_set.remove(target_cell);
                assert forall|c: SpatialCell| #[trigger] field.1@.contains(c) <==> tset.contains(c) by {}
                lemma_set_keys(key.blocked@, field.1@, tset);
                assert(key.view_key() == step_field_key(
                    before,
                    tick,
                    focus,
                    sample_limit,
                    cs_in,
                    preview_cell(step_behaviors(before, tick, focus, sample_limit)[k as int].intent_target, cs_in),
                ));
            }
            let flow_step = self.flow_field_cache.step_from(key, &field.1, entity_cell);
            proof {
                assert(flow_step == step_flow(before, tick, focus, sample_limit, cs_in, k as int));
            }
            flow_field_query_count = flow_field_query_count + 1;
            match flow_step.result {
                FlowFieldStepResult::Blocked | FlowFieldStepResult::Unreachable => {
                    flow_field_unreachable_count = flow_field_unreachable_count + 1;
                },
                _ => {},
            }
            let requested_delta = flow_step.movement_delta;
            let requested_position = WorldPosition {
                x_mm: sat_add_i32(entity.position.x_mm, requested_delta.dx_mm),
                y_mm: sat_add_i32(entity.position.y_mm, requested_delta.dy_mm),
            };
            let probe = match correction_limit_abs_mm {
                Some(limit_abs_mm) => collision_world.probe_movement_after_resolution_with_correction_limit(
                    entity.entity_id,
                    requested_position,
                    1,
                    limit_abs_mm,
                ),
                None => collision_world.probe_movement_after_resolution(entity.entity_id, requested_position, 1),
            };
            let ghost wk = collision_world.spec_bodies();
            proof {
                assert(entity == before.spec_active()[k as int]);
                assert(requested_position == step_target(before, tick, focus, sample_limit, cs_in, k as int));
                assert(probe.decision == decision_for(
                    resolved_result(wk, SWARM_COLLISION_CELL_SIZE_MM as int, entity.entity_id, requested_position, 1, correction_limit_abs_mm),
                ));
                assert(probe.resolved_position == resolved_position_of(
                    wk,
                    SWARM_COLLISION_CELL_SIZE_MM as int,
                    entity.entity_id,
                    requested_position,
                    1,
                    correction_limit_abs_mm,
                ));
                assert(probe.resolved_delta == resolved_delta_of(
                    wk,
                    SWARM_COLLISION_CELL_SIZE_MM as int,
                    entity.entity_id,
                    requested_position,
                    1,
                    correction_limit_abs_mm,
                ));
            }
            movement_probe_clamped_correction_count =
                if movement_probe_clamped_correction_count <= usize::MAX - probe.clamped_correction_count {
                    movement_probe_clamped_correction_count + probe.clamped_correction_count
                } else {
                    usize::MAX
                };
            let accepted = match probe.decision {
                CollisionMovementDecision::Accepted | CollisionMovementDecision::Corrected => true,
                _ => false,
            };
            let mut applied_delta = MovementDelta { dx_mm: 0, dy_mm: 0 };
            let mut final_position = entity.position;
            if accepted {
                let resolved_delta = probe.resolved_delta.unwrap();
                let resolved_position = probe.resolved_position.unwrap();
                applied_delta_count = applied_delta_count + 1;
                match probe.decision {
                    CollisionMovementDecision::Corrected => {
                        corrected_delta_count = corrected_delta_count + 1;
                    },
                    _ => {},
                }
                physics_candidate_count = physics_candidate_count + 1;
                let moved = SwarmEntity { position: resolved_position, ..entity };
                let ghost a0 = self.active_entities@;
                self.active_entities.set(k, moved);
                proof {
                    let a1 = self.active_entities@;
                    assert forall|x: int, y: int| 0 <= x < y < a1.len() implies a1[x].entity_id.0 < a1[y].entity_id.0 by {
                        assert(a0[x].entity_id == a1[x].entity_id);
                        assert(a0[y].entity_id == a1[y].entity_id);
                    }
                    assert forall|x: int| 0 <= x < a1.len() implies (#[trigger] a1[x]).entity_id.0 < self.next_entity_id.0
                        || self.next_entity_id.0 == u64::MAX by {
                        assert(a0[x].entity_id == a1[x].entity_id);
                    }
                    assert forall|x: int| 0 <= x < a1.len() implies (#[trigger] a1[x]).collision_radius_mm
                        == self.config.collision_radius_mm by {
                        assert(a0[x].collision_radius_mm == a1[x].collision_radius_mm);
                    }
                }
                proof {
                    assert(has_body(wk, before.spec_active()[k as int].entity_id));
                    assert(moved.collision_radius_mm > 0);
                }
                let _ = collision_world.insert_or_update(moved.collision_body());
                proof {
                    let w1 = collision_world.spec_bodies();
                    assert(w1 == wk.update(index_of(wk, entity.entity_id), entity_body(moved)));
                    assert forall|j: int| 0 <= j < before.spec_active().len() implies has_body(
                        w1,
                        #[trigger] before.spec_active()[j].entity_id,
                    ) by {
                        let id = before.spec_active()[j].entity_id;
                        assert(has_body(wk, id));
                        let i = choose|i: int| 0 <= i < wk.len() && wk[i].entity_id == id;
                        assert(w1[i].entity_id == id);
                    }
                }
                applied_delta = resolved_delta;
                final_position = resolved_position;
            } else {
                blocked_delta_count = blocked_delta_count + 1;
            }
            proof {
                assert(collision_world.spec_bodies() == single_step_world(
                    ws0,
                    before,
                    tick,
                    focus,
                    sample_limit,
                    cs_in,
                    correction_limit_abs_mm,
                    (k + 1) as nat,
                ));
            }
            let ghost s0 = samples@;
            samples.push(
                SwarmMovementApplySample {
                    entity_id: entity.entity_id,
                    intent_kind: behavior.intent_kind,
                    from_position: entity.position,
                    intent_target: behavior.intent_target,
                    flow_field_result: flow_step.result,
                    requested_delta,
                    applied_delta,
                    collision_decision: probe.decision,
                    final_position,
                },
            );
            proof {
                let x = samples@[k as int];
                assert(sample_decisions(samples@) =~= sample_decisions(s0).push(x.collision_decision));
                assert(applied_delta_count == sample_decisions(samples@).filter(moving()).len()) by {
                    sample_decisions(s0).lemma_filter_push(x.collision_decision, moving());
                }
                assert(corrected_delta_count == sample_decisions(samples@).filter(correcting()).len()) by {
                    sample_decisions(s0).lemma_filter_push(x.collision_decision, correcting());
                }
                assert(single_sample_ok(
                    ws0,
                    before,
                    tick,
                    focus,
                    sample_limit,
                    cs_in,
                    correction_limit_abs_mm,
                    samples@[k as int],
                    k as int,
                )) by {
                    reveal(single_sample_ok);
                }
                assert forall|j: int| 0 <= j < k + 1 implies (#[trigger] self.active_entities@[j]).position
                    == samples@[j].final_position by {
                    if j < k {
                        assert(samples@[j] == s0[j]);
                    }
                }
            }
            k += 1;
        }
        let ghost wn = collision_world.spec_bodies();
        let ghost looped = *self;
        let physics_step = if physics_candidate_count > 0 {
            match correction_limit_abs_mm {
                Some(limit_abs_mm) => collision_world.step_overlap_resolution_with_correction_limit(physics_iterations, limit_abs_mm),
                None => collision_world.step_overlap_resolution(physics_iterations),
            }
        } else {
            no_physics_step(&collision_world, physics_iterations, correction_limit_abs_mm)
        };
        let physics_synced_position_count = if physics_candidate_count > 0 {
            self.sync_positions_from_collision_world(&collision_world)
        } else {
            0
        };
        let ghost pre_sync = samples@;
        let physics_sample_synced_position_count = sync_apply_samples_from_active_entities(&mut samples, &self.active_entities);
        proof {
            assert(sample_decisions(samples@) =~= sample_decisions(pre_sync));
        }
        let cache = &self.flow_field_cache;
        let report = SwarmMovementApplyReport {
            schema: SWARM_SCHEMA,
            tick,
            sample_count: samples.len(),
            flow_field_build_count: (cache.build_count - builds_before) as usize,
            flow_field_cache_request_count: cache.request_count - requests_before,
            flow_field_cache_hit_count: cache.hit_count - hits_before,
            flow_field_cache_eviction_count: cache.eviction_count - evictions_before,
            flow_field_cache_entry_count: cache.keys.len(),
            flow_field_query_count,
            flow_field_unreachable_count,
            applied_delta_count,
            corrected_delta_count,
            blocked_delta_count,
            movement_probe_correction_limit_abs_mm: correction_limit_abs_mm,
            movement_probe_clamped_correction_count,
            physics_candidate_count,
            physics_initial_contact_count: physics_step.initial_contact_count,
            physics_iterations_run: physics_step.iterations_run,
            physics_applied_correction_count: physics_step.applied_correction_count,
            physics_applied_correction_abs_mm_total: physics_step.applied_correction_abs_mm_total,
            physics_max_applied_correction_abs_mm: physics_step.max_applied_correction_abs_mm,
            physics_correction_limit_abs_mm: physics_step.correction_limit_abs_mm,
            physics_clamped_correction_count: physics_step.clamped_correction_count,
            physics_final_contact_count: physics_step.final_contact_count,
            physics_synced_position_count,
            physics_sample_synced_position_count,
            samples,
            claim_scope: "swarm_movement_apply_opt_in",
        };
        proof {
            assert(id_ordered_world(ws0, movement_bodies(*old(self))));
            assert(before == *old(self));
            assert(single_probe_facts(ws0, before, report, tick, focus, sample_limit, cs_in, correction_limit_abs_mm)) by {
                reveal(single_sample_ok);
                assert forall|j: int| 0 <= j < n implies single_sample_ok(
                    ws0,
                    before,
                    tick,
                    focus,
                    sample_limit,
                    cs_in,
                    correction_limit_abs_mm,
                    #[trigger] pre_sync[j],
                    j,
                ) by {}
            }
            assert(single_settle_facts(
                ws0,
                before,
                *self,
                report,
                tick,
                focus,
                sample_limit,
                cs_in,
                correction_limit_abs_mm,
                physics_iterations,
            )) by {
                assert forall|i: int| 0 <= i < before.spec_active().len() implies (#[trigger] self.spec_active()[i]).position
                    == settled_position(
                    wn,
                    report.physics_candidate_count > 0,
                    physics_iterations,
                    correction_limit_abs_mm,
                    before.spec_active()[i].entity_id,
                    single_moved_to(ws0, before, tick, focus, sample_limit, cs_in, correction_limit_abs_mm, n as int, i),
                ) by {
                    assert(looped.spec_active()[i].entity_id == before.spec_active()[i].entity_id);
                    if i < n {
                        assert(looped.spec_active()[i].position == pre_sync[i].final_position);
                        assert(single_sample_ok(ws0, before, tick, focus, sample_limit, cs_in, correction_limit_abs_mm, pre_sync[i], i));
                        reveal(single_sample_ok);
                    } else {
                        assert(looped.spec_active()[i] == before.spec_active()[i]);
                    }
                }
            }
        }
        report
    }
}

/// Where the `k`-th sampled zombie of a movement step asks to go: its position moved by its
/// flow-field step, saturating in `i32`.
pub open spec fn step_target(s: SwarmState, tick: Tick, focus: WorldPosition, sample_limit: usize, cell_size_mm: i32, k: int) -> WorldPosition {
    let e = s.spec_active()[k];
    let d = step_flow(s, tick, focus, sample_limit, cell_size_mm, k).movement_delta;
    WorldPosition { x_mm: clamp_i32(e.position.x_mm + d.dx_mm) as i32, y_mm: clamp_i32(e.position.y_mm + d.dy_mm) as i32 }
}

/// The bodies of a single-probe movement step's world after its first `k` samples: each
/// sample is probed in turn, and a sample whose move is accepted or corrected moves its body
/// to the resolved position before the next probe.
pub open spec fn single_step_world(
    ws0: Seq<CollisionBody>,
    s: SwarmState,
    tick: Tick,
    focus: WorldPosition,
    sample_limit: usize,
    cell_size_mm: i32,
    limit: Option<u32>,
    k: nat,
) -> Seq<CollisionBody>
    decreases k,
{
    if k == 0 {
        ws0
    } else {
        let w = single_step_world(ws0, s, tick, focus, sample_limit, cell_size_mm, limit, (k - 1) as nat);
        let j = k - 1;
        let e = s.spec_active()[j];
        let t = step_target(s, tick, focus, sample_limit, cell_size_mm, j);
        let cs = SWARM_COLLISION_CELL_SIZE_MM as int;
        let d = decision_for(resolved_result(w, cs, e.entity_id, t, 1, limit));
        match resolved_position_of(w, cs, e.entity_id, t, 1, limit) {
            Some(p) => if d is Accepted || d is Corrected {
                w.update(index_of(w, e.entity_id), entity_body(SwarmEntity { position: p, ..e }))
            } else {
                w
            },
            None => w,
        }
    }
}

/// Each sample of a single-probe movement step holds the decision of its own probe, with one
/// resolution round, against the world as the earlier samples left it, starting from the
/// bodies `ws0`, and the delta that probe applied, read back against its final position.
pub open spec fn single_probe_facts(
    ws0: Seq<CollisionBody>,
    s: SwarmState,
    r: SwarmMovementApplyReport,
    tick: Tick,
    focus: WorldPosition,
    sample_limit: usize,
    cell_size_mm: i32,
    limit: Option<u32>,
) -> bool {
    forall|k: int|
        0 <= k < r.samples@.len() ==> (#[trigger] r.samples@[k]).collision_decision == decision_for(
            resolved_result(
                single_step_world(ws0, s, tick, focus, sample_limit, cell_size_mm, limit, k as nat),
                SWARM_COLLISION_CELL_SIZE_MM as int,
                s.spec_active()[k].entity_id,
                step_target(s, tick, focus, sample_limit, cell_size_mm, k),
                1,
                limit,
            ),
        ) && r.samples@[k].applied_delta == ({
            let pre = single_probe_move(
                single_step_world(ws0, s, tick, focus, sample_limit, cell_size_mm, limit, k as nat),
                s.spec_active()[k],
                step_target(s, tick, focus, sample_limit, cell_size_mm, k),
                limit,
            );
            synced_delta(pre.0, pre.1, s.spec_active()[k].position, r.samples@[k].final_position)
        })
}

/// Whether a movement decision lets the move through.
pub open spec fn moves_on(d: CollisionMovementDecision) -> bool {
    d is Accepted || d is Corrected
}

/// The decisions through which a move goes.
pub open spec fn moving() -> spec_fn(CollisionMovementDecision) -> bool {
    |d: CollisionMovementDecision| moves_on(d)
}

/// The decisions that correct a move.
pub open spec fn correcting() -> spec_fn(CollisionMovementDecision) -> bool {
    |d: CollisionMovementDecision| d is Corrected
}

/// The collision decisions of a movement step's samples, in order.
pub open spec fn sample_decisions(samples: Seq<SwarmMovementApplySample>) -> Seq<CollisionMovementDecision> {
    samples.map_values(|x: SwarmMovementApplySample| x.collision_decision)
}

/// The applied and corrected counts of a movement report are the numbers of its samples whose
/// move went through, and whose move was corrected (the blocked count is the rest).
pub open spec fn decision_counts(r: SwarmMovementApplyReport) -> bool {
    &&& r.applied_delta_count == sample_decisions(r.samples@).filter(moving()).len()
    &&& r.corrected_delta_count == sample_decisions(r.samples@).filter(correcting()).len()
}

/// The physics fields of a movement report: when some move was applied, `iterations` rounds
/// of overlap resolution with the limit over the world `w` that the moves left; else no round,
/// and the contacts of `w` before and after.
pub open spec fn physics_facts(r: SwarmMovementApplyReport, w: Seq<CollisionBody>, iterations: usize, limit: Option<u32>) -> bool {
    let cs = SWARM_COLLISION_CELL_SIZE_MM as int;
    let t = resolution_trace(w, cs, limit, iterations as nat);
    let ran = r.physics_candidate_count > 0;
    &&& r.physics_initial_contact_count == overlap_contacts(w, cs).len()
    &&& r.physics_iterations_run == (if ran { t.1 } else { 0 })
    &&& r.physics_applied_correction_count == (if ran { clamp_usize(t.2) } else { 0 })
    &&& r.physics_applied_correction_abs_mm_total == (if ran { clamp_u64(t.3) } else { 0 })
    &&& r.physics_max_applied_correction_abs_mm == (if ran { t.4 } else { 0 })
    &&& r.physics_correction_limit_abs_mm == limit
    &&& r.physics_clamped_correction_count == (if ran { clamp_usize(t.5) } else { 0 })
    &&& r.physics_final_contact_count == overlap_contacts(if ran { t.0 } else { w }, cs).len()
}

/// Where a zombie ends a movement step: when physics ran, the place of its body after the
/// resolution rounds over the world `w`; otherwise (or where the world has no such body) the
/// place `moved_to` that its own move gave it.
pub open spec fn settled_position(
    w: Seq<CollisionBody>,
    ran: bool,
    iterations: usize,
    limit: Option<u32>,
    id: EntityId,
    moved_to: WorldPosition,
) -> WorldPosition {
    if ran {
        match body_of(resolution_trace(w, SWARM_COLLISION_CELL_SIZE_MM as int, limit, iterations as nat).0, id) {
            Some(b) => b.position,
            None => moved_to,
        }
    } else {
        moved_to
    }
}

/// Where the single-probe step's own move puts the `i`-th zombie: a sampled zombie goes to
/// its probe's resolved place when the move went through; the others stay.
pub open spec fn single_moved_to(
    ws0: Seq<CollisionBody>,
    s: SwarmState,
    tick: Tick,
    focus: WorldPosition,
    sample_limit: usize,
    cell_size_mm: i32,
    limit: Option<u32>,
    n: int,
    i: int,
) -> WorldPosition {
    if i < n {
        single_probe_move(
            single_step_world(ws0, s, tick, focus, sample_limit, cell_size_mm, limit, i as nat),
            s.spec_active()[i],
            step_target(s, tick, focus, sample_limit, cell_size_mm, i),
            limit,
        ).1
    } else {
        s.spec_active()[i].position
    }
}

/// The clamped corrections of the first `k` probes of a single-probe step, summed and
/// saturating in `usize`.
pub open spec fn single_clamped_total(
    ws0: Seq<CollisionBody>,
    s: SwarmState,
    tick: Tick,
    focus: WorldPosition,
    sample_limit: usize,
    cell_size_mm: i32,
    limit: Option<u32>,
    k: nat,
) -> int
    decreases k,
{
    if k == 0 {
        0
    } else {
        let prev = single_clamped_total(ws0, s, tick, focus, sample_limit, cell_size_mm, limit, (k - 1) as nat);
        let j = k - 1;
        let w = single_step_world(ws0, s, tick, focus, sample_limit, cell_size_mm, limit, j as nat);
        let c = resolved_stats(
            w,
            SWARM_COLLISION_CELL_SIZE_MM as int,
            s.spec_active()[j].entity_id,
            step_target(s, tick, focus, sample_limit, cell_size_mm, j),
            1,
            limit,
        ).4;
        if prev + c <= usize::MAX {
            prev + c
        } else {
            usize::MAX as int
        }
    }
}

/// How a single-probe step settles: its counts follow the decisions, its physics fields are
/// those of the rounds over the world its moves left, and every zombie ends where it settled.
pub open spec fn single_settle_facts(
    ws0: Seq<CollisionBody>,
    s: SwarmState,
    after: SwarmState,
    r: SwarmMovementApplyReport,
    tick: Tick,
    focus: WorldPosition,
    sample_limit: usize,
    cell_size_mm: i32,
    limit: Option<u32>,
    iterations: usize,
) -> bool {
    let n = r.samples@.len() as int;
    let w = single_step_world(ws0, s, tick, focus, sample_limit, cell_size_mm, limit, n as nat);
    &&& decision_counts(r)
    &&& r.movement_probe_clamped_correction_count == single_clamped_total(
        ws0,
        s,
        tick,
        focus,
        sample_limit,
        cell_size_mm,
        limit,
        n as nat,
    )
    &&& physics_facts(r, w, iterations, limit)
    &&& forall|i: int|
        0 <= i < s.spec_active().len() ==> (#[trigger] after.spec_active()[i]).position == settled_position(
            w,
            r.physics_candidate_count > 0,
            iterations,
            limit,
            s.spec_active()[i].entity_id,
            single_moved_to(ws0, s, tick, focus, sample_limit, cell_size_mm, limit, n, i),
        )
}

/// The bodies of a batch step's world after its first `k` samples are applied in turn: a
/// sample whose move went through moves its body to the place the batch probe gave it.
pub open spec fn batch_applied_world(
    ws: Seq<CollisionBody>,
    fw: Seq<CollisionBody>,
    cands: Seq<CollisionBatchMovementCandidate>,
    s: SwarmState,
    k: nat,
) -> Seq<CollisionBody>
    decreases k,
{
    if k == 0 {
        ws
    } else {
        let w = batch_applied_world(ws, fw, cands, s, (k - 1) as nat);
        let j = k - 1;
        let e = s.spec_active()[j];
        if moves_on(decision_for(batch_result(ws, fw, cands[j]))) {
            w.update(index_of(w, e.entity_id), entity_body(SwarmEntity { position: batch_probe_move(ws, fw, cands[j], e).1, ..e }))
        } else {
            w
        }
    }
}

/// How a batch step settles: its counts follow the decisions, its probe's clamped count is
/// that of the batch probe's resolution round, its physics fields are those of the rounds over
/// the world its applied moves left, and every zombie ends where it settled.
pub open spec fn batch_settle_facts(
    ws: Seq<CollisionBody>,
    s: SwarmState,
    after: SwarmState,
    r: SwarmMovementApplyReport,
    tick: Tick,
    focus: WorldPosition,
    sample_limit: usize,
    cell_size_mm: i32,
    limit: Option<u32>,
    iterations: usize,
) -> bool {
    let n = r.samples@.len() as int;
    let cs = SWARM_COLLISION_CELL_SIZE_MM as int;
    let cands = step_candidates(s, tick, focus, sample_limit, cell_size_mm);
    let fw = batch_final_world(ws, cs, cands, 1, limit);
    let w = batch_applied_world(ws, fw, cands, s, n as nat);
    let t = resolution_trace(crate::collision::batch_world(ws, cands), cs, limit, 1);
    &&& decision_counts(r)
    &&& r.movement_probe_clamped_correction_count == (if crate::collision::known_count(ws, cands) > 0 {
        clamp_usize(t.5)
    } else {
        0
    })
    &&& physics_facts(r, w, iterations, limit)
    &&& forall|i: int|
        0 <= i < s.spec_active().len() ==> (#[trigger] after.spec_active()[i]).position == settled_position(
            w,
            r.physics_candidate_count > 0,
            iterations,
            limit,
            s.spec_active()[i].entity_id,
            if i < n { batch_probe_move(ws, fw, cands[i], s.spec_active()[i]).1 } else { s.spec_active()[i].position },
        )
}

/// The probe and settling facts of a configured tick's movement step, by the configured
/// movement mode.
pub open spec fn configured_step_facts(mid: SwarmState, after: SwarmState, m: SwarmMovementApplyReport, tick: Tick, focus: WorldPosition) -> bool {
    let c = mid.spec_config();
    match c.movement_mode {
        SwarmMovementMode::SpawnOnly => true,
        SwarmMovementMode::FlowFieldCollision => exists|ws: Seq<CollisionBody>|
            id_ordered_world(ws, movement_bodies(mid)) && #[trigger] single_probe_facts(
                ws,
                mid,
                m,
                tick,
                focus,
                c.movement_sample_limit,
                c.movement_cell_size_mm,
                c.movement_correction_limit_abs_mm,
            ) && single_settle_facts(
                ws,
                mid,
                after,
                m,
                tick,
                focus,
                c.movement_sample_limit,
                c.movement_cell_size_mm,
                c.movement_correction_limit_abs_mm,
                c.movement_physics_iterations,
            ),
        SwarmMovementMode::BatchFlowFieldCollision => exists|ws: Seq<CollisionBody>|
            id_ordered_world(ws, movement_bodies(mid)) && #[trigger] batch_probe_facts(
                ws,
                mid,
                m,
                tick,
                focus,
                c.movement_sample_limit,
                c.movement_cell_size_mm,
                c.movement_correction_limit_abs_mm,
            ) && batch_settle_facts(
                ws,
                mid,
                after,
                m,
                tick,
                focus,
                c.movement_sample_limit,
                c.movement_cell_size_mm,
                c.movement_correction_limit_abs_mm,
                c.movement_physics_iterations,
            ),
    }
}

/// The collision decisions of a preview's samples, in order.
pub open spec fn preview_decisions(samples: Seq<SwarmMovementPreviewSample>) -> Seq<CollisionMovementDecision> {
    samples.map_values(|x: SwarmMovementPreviewSample| x.collision_decision)
}

/// The preview's copy of the world after its first `k` samples: each sample whose probe
/// against the untouched world `ws` lets the move through moves its body in the copy `pw` to
/// the resolved place.
pub open spec fn preview_applied_world(
    pw: Seq<CollisionBody>,
    ws: Seq<CollisionBody>,
    s: SwarmState,
    tick: Tick,
    focus: WorldPosition,
    sample_limit: usize,
    cell_size_mm: i32,
    k: nat,
) -> Seq<CollisionBody>
    decreases k,
{
    if k == 0 {
        pw
    } else {
        let w = preview_applied_world(pw, ws, s, tick, focus, sample_limit, cell_size_mm, (k - 1) as nat);
        let j = k - 1;
        let e = s.spec_active()[j];
        let t = step_target(s, tick, focus, sample_limit, cell_size_mm, j);
        if moves_on(decision_for(resolved_result(ws, SWARM_COLLISION_CELL_SIZE_MM as int, e.entity_id, t, 1, None))) {
            w.update(index_of(w, e.entity_id), entity_body(SwarmEntity { position: single_probe_move(ws, e, t, None).1, ..e }))
        } else {
            w
        }
    }
}

/// The counts and physics of a preview: the applied and corrected counts follow the samples'
/// decisions, and the physics fields are those of one resolution round over the copy of the
/// world (from the bodies `pw`) holding the moved bodies.
pub open spec fn preview_physics_facts(
    pw: Seq<CollisionBody>,
    ws: Seq<CollisionBody>,
    s: SwarmState,
    r: SwarmMovementPreviewReport,
    tick: Tick,
    focus: WorldPosition,
    sample_limit: usize,
    cell_size_mm: i32,
) -> bool {
    let cs = SWARM_COLLISION_CELL_SIZE_MM as int;
    let w = preview_applied_world(pw, ws, s, tick, focus, sample_limit, cell_size_mm, r.samples@.len());
    let t = resolution_trace(w, cs, None, 1);
    &&& r.applied_delta_count == preview_decisions(r.samples@).filter(moving()).len()
    &&& r.corrected_delta_count == preview_decisions(r.samples@).filter(correcting()).len()
    &&& r.physics_initial_contact_count == overlap_contacts(w, cs).len()
    &&& r.physics_iterations_run == t.1
    &&& r.physics_applied_correction_count == clamp_usize(t.2)
    &&& r.physics_applied_correction_abs_mm_total == clamp_u64(t.3)
    &&& r.physics_max_applied_correction_abs_mm == t.4
    &&& r.physics_final_contact_count == overlap_contacts(t.0, cs).len()
}

/// The `j`-th sample of a single-probe step holds its probe's decision, against the world as
/// the earlier samples left it, and the move that probe gave it.
#[verifier::opaque]
pub open spec fn single_sample_ok(
    ws0: Seq<CollisionBody>,
    s: SwarmState,
    tick: Tick,
    focus: WorldPosition,
    sample_limit: usize,
    cell_size_mm: i32,
    limit: Option<u32>,
    x: SwarmMovementApplySample,
    j: int,
) -> bool {
    let w = single_step_world(ws0, s, tick, focus, sample_limit, cell_size_mm, limit, j as nat);
    let e = s.spec_active()[j];
    let t = step_target(s, tick, focus, sample_limit, cell_size_mm, j);
    &&& x.collision_decision == decision_for(resolved_result(w, SWARM_COLLISION_CELL_SIZE_MM as int, e.entity_id, t, 1, limit))
    &&& x.applied_delta == single_probe_move(w, e, t, limit).0
    &&& x.final_position == single_probe_move(w, e, t, limit).1
}

/// `ws` holds the bodies of a list, one per id, in increasing id order: the bodies of a
/// collision world made from that list.
#[verifier::opaque]
pub open spec fn id_ordered_world(ws: Seq<CollisionBody>, bodies: Seq<CollisionBody>) -> bool {
    ids_increasing(ws) && body_map(ws) == inserted_map(bodies)
}

/// What one probe gives a sample before positions are read back from the world: the
/// resolved delta and position of an accepted or corrected move, else no move at all.
pub open spec fn single_probe_move(w: Seq<CollisionBody>, e: SwarmEntity, t: WorldPosition, limit: Option<u32>) -> (
    MovementDelta,
    WorldPosition,
) {
    let cs = SWARM_COLLISION_CELL_SIZE_MM as int;
    let d = decision_for(resolved_result(w, cs, e.entity_id, t, 1, limit));
    match (resolved_delta_of(w, cs, e.entity_id, t, 1, limit), resolved_position_of(w, cs, e.entity_id, t, 1, limit)) {
        (Some(delta), Some(p)) => if d is Accepted || d is Corrected {
            (delta, p)
        } else {
            (MovementDelta { dx_mm: 0, dy_mm: 0 }, e.position)
        },
        _ => (MovementDelta { dx_mm: 0, dy_mm: 0 }, e.position),
    }
}

/// A sample's delta once its final position is read back from the swarm: unchanged when the
/// position is the one it already had, else the delta from its start to that position.
pub open spec fn synced_delta(delta: MovementDelta, had: WorldPosition, from: WorldPosition, now: WorldPosition) -> MovementDelta {
    if had == now {
        delta
    } else {
        delta_between(from, now)
    }
}

/// A map made by inserting a list of bodies holds each of their ids.
proof fn lemma_inserted_map_has(bs: Seq<CollisionBody>, i: int)
    requires
        0 <= i < bs.len(),
    ensures
        inserted_map(bs).contains_key(bs[i].entity_id),
    decreases bs.len(),
{
    if i < bs.len() - 1 {
        lemma_inserted_map_has(bs.drop_last(), i);
        assert(bs.drop_last()[i] == bs[i]);
    }
}

/// The moves of a movement step's samples, as collision candidates.
pub open spec fn step_candidates(s: SwarmState, tick: Tick, focus: WorldPosition, sample_limit: usize, cell_size_mm: i32) -> Seq<
    CollisionBatchMovementCandidate,
> {
    Seq::new(
        movement_sample_count(s.spec_active().len(), sample_limit),
        |k: int|
            CollisionBatchMovementCandidate {
                entity_id: s.spec_active()[k].entity_id,
                target_position: step_target(s, tick, focus, sample_limit, cell_size_mm, k),
            },
    )
}

/// Each sample of a batch movement step holds the decision of one batch probe of all the
/// samples' moves together, with one resolution round, against a world of the bodies `ws`, and the
/// delta that probe applied, read back against its final position.
pub open spec fn batch_probe_facts(
    ws: Seq<CollisionBody>,
    s: SwarmState,
    r: SwarmMovementApplyReport,
    tick: Tick,
    focus: WorldPosition,
    sample_limit: usize,
    cell_size_mm: i32,
    limit: Option<u32>,
) -> bool {
    let cands = step_candidates(s, tick, focus, sample_limit, cell_size_mm);
    let fw = batch_final_world(ws, SWARM_COLLISION_CELL_SIZE_MM as int, cands, 1, limit);
    forall|k: int|
        0 <= k < r.samples@.len() ==> (#[trigger] r.samples@[k]).collision_decision == decision_for(batch_result(ws, fw, cands[k]))
            && r.samples@[k].applied_delta == ({
            let pre = batch_probe_move(ws, fw, cands[k], s.spec_active()[k]);
            synced_delta(pre.0, pre.1, s.spec_active()[k].position, r.samples@[k].final_position)
        })
}

/// What a batch probe gives a sample before positions are read back from the world: the
/// move to its body's place in the batch's final world, when accepted or corrected, else no
/// move at all.
pub open spec fn batch_probe_move(
    ws: Seq<CollisionBody>,
    fw: Seq<CollisionBody>,
    c: CollisionBatchMovementCandidate,
    e: SwarmEntity,
) -> (MovementDelta, WorldPosition) {
    let d = decision_for(batch_result(ws, fw, c));
    match (crate::collision::body_of(fw, c.entity_id), crate::collision::from_position(ws, c.entity_id)) {
        (Some(rb), Some(f)) => if d is Accepted || d is Corrected {
            (delta_between(f, rb.position), rb.position)
        } else {
            (MovementDelta { dx_mm: 0, dy_mm: 0 }, e.position)
        },
        _ => (MovementDelta { dx_mm: 0, dy_mm: 0 }, e.position),
    }
}

/// Each preview sample holds what one probe with one resolution round, against a world of
/// the bodies `ws`, decides for its zombie's flow-field move.
pub open spec fn preview_probe_facts(
    ws: Seq<CollisionBody>,
    s: SwarmState,
    r: SwarmMovementPreviewReport,
    tick: Tick,
    focus: WorldPosition,
    sample_limit: usize,
    cell_size_mm: i32,
) -> bool {
    forall|k: int|
        0 <= k < r.samples@.len() ==> {
            let e = s.spec_active()[k];
            let t = step_target(s, tick, focus, sample_limit, cell_size_mm, k);
            let cs = SWARM_COLLISION_CELL_SIZE_MM as int;
            let d = decision_for(resolved_result(ws, cs, e.entity_id, t, 1, None));
            &&& (#[trigger] r.samples@[k]).collision_decision == d
            &&& r.samples@[k].collision_iterations_run == resolved_stats(ws, cs, e.entity_id, t, 1, None).0
            &&& r.samples@[k].collision_applied_correction_count == resolved_stats(ws, cs, e.entity_id, t, 1, None).1
            &&& (d is Accepted || d is Corrected) ==> Some(r.samples@[k].resolved_delta) == resolved_delta_of(
                ws,
                cs,
                e.entity_id,
                t,
                1,
                None,
            )
        }
}

/// The cells of the targets of a list of preview samples.
pub open spec fn preview_target_cells(samples: Seq<SwarmMovementPreviewSample>, cell_size_mm: i32) -> Set<SpatialCell> {
    Set::new(|c: SpatialCell| exists|k: int| 0 <= k < samples.len() && preview_cell(samples[k].intent_target, cell_size_mm) == c)
}

/// Whether a flow-field step found no way on.
pub open spec fn step_unreachable(result: FlowFieldStepResult) -> bool {
    result is Blocked || result is Unreachable
}

/// The preview samples whose flow-field step found no way on.
pub open spec fn unreachable_sample() -> spec_fn(SwarmMovementPreviewSample) -> bool {
    |s: SwarmMovementPreviewSample| step_unreachable(s.flow_field_result)
}

impl SwarmState {
    /// What the flow fields and a collision probe would do to the first zombies, without
    /// changing the swarm: one flow field per target cell, a probe per zombie, and one
    /// overlap-resolution step on a copy of the world holding the moved bodies.
    #[verifier::rlimit(100)]
    #[verifier::spinoff_prover]
    pub fn movement_preview(&self, tick: Tick, focus: WorldPosition, sample_limit: usize, cell_size_mm: i32) -> (r:
        SwarmMovementPreviewReport)
        requires
            self.wf(),
        ensures
            ({
                let n = movement_sample_count(self.spec_active().len(), sample_limit);
                let best = best_sample(aggro_samples(self.spec_config(), tick, self.spec_aggro()));
                &&& r.schema@ == SWARM_SCHEMA@
                &&& r.tick == tick
                &&& r.sample_count == n
                &&& r.samples@.len() == n
                &&& forall|k: int|
                    0 <= k < n ==> {
                        let e = self.spec_active()[k];
                        let b = behavior_sample(self.spec_config(), best, e, focus);
                        let s = #[trigger] r.samples@[k];
                        &&& s.entity_id == e.entity_id
                        &&& s.from_position == e.position
                        &&& s.intent_kind == b.intent_kind
                        &&& s.intent_target == b.intent_target
                        &&& (s.collision_decision is Blocked || s.collision_decision is UnknownBody) ==> s.resolved_delta
                            == (MovementDelta { dx_mm: 0, dy_mm: 0 })
                        &&& s.flow_field_result == step_flow(*self, tick, focus, sample_limit, cell_size_mm, k).result
                        &&& s.requested_delta == step_flow(*self, tick, focus, sample_limit, cell_size_mm, k).movement_delta
                    }
                &&& r.flow_field_build_count == preview_target_cells(r.samples@, cell_size_mm).len()
                &&& r.flow_field_build_count <= n
                &&& r.flow_field_query_count == n
                &&& r.flow_field_unreachable_count == r.samples@.filter(unreachable_sample()).len()
                &&& r.applied_delta_count + r.blocked_delta_count == n
                &&& r.corrected_delta_count <= r.applied_delta_count
                &&& r.physics_candidate_count == r.applied_delta_count
                &&& r.claim_scope@ == "movement_preview_only"@
                &&& exists|ws: Seq<CollisionBody>|
                    id_ordered_world(ws, movement_bodies(*self)) && #[trigger] preview_probe_facts(
                        ws,
                        *self,
                        r,
                        tick,
                        focus,
                        sample_limit,
                        cell_size_mm,
                    ) && exists|pw: Seq<CollisionBody>|
                        id_ordered_world(pw, movement_bodies(*self)) && #[trigger] preview_physics_facts(
                            pw,
                            ws,
                            *self,
                            r,
                            tick,
                            focus,
                            sample_limit,
                            cell_size_mm,
                        )
            }),
    {
        let ghost cs_in = cell_size_mm;
        let cell_size_mm = if cell_size_mm < 1 { 1 } else { cell_size_mm };
        let ghost cs0 = cell_size_mm;
        let behaviors = self.movement_behaviors(tick, focus, sample_limit);
        let n = behaviors.len();
        let flow_bounds = swarm_preview_flow_bounds(&behaviors, &self.active_entities, cell_size_mm);
        let blockers = self.static_obstacle_blocker_cells(cell_size_mm, flow_bounds, self.config.collision_radius_mm);
        let ghost blocker_set = blocker_cells(
            self.spec_obstacle_shapes(),
            self.spec_obstacles(),
            cell_size_mm,
            flow_bounds,
            self.spec_config().collision_radius_mm,
        );
        proof {
            assert(behaviors@ =~= step_behaviors(*self, tick, focus, sample_limit));
            assert forall|c: SpatialCell| #[trigger] blockers.1@.contains(c) <==> blocker_set.contains(c) by {}
        }
        let collision_world = CollisionWorld::with_bodies(SWARM_COLLISION_CELL_SIZE_MM, self.movement_collision_bodies()).unwrap();
        let ghost ws = collision_world.spec_bodies();
        let mut preview_world = CollisionWorld::with_bodies(SWARM_COLLISION_CELL_SIZE_MM, self.movement_collision_bodies()).unwrap();
        let ghost pw0 = preview_world.spec_bodies();
        assert(id_ordered_world(ws, movement_bodies(*self))) by {
            reveal(id_ordered_world);
            collision_world.lemma_wf();
        }
        assert(id_ordered_world(pw0, movement_bodies(*self))) by {
            reveal(id_ordered_world);
            preview_world.lemma_wf();
        }
        proof {
            assert forall|j: int| 0 <= j < self.spec_active().len() implies has_body(pw0, #[trigger] self.spec_active()[j].entity_id) by {
                let bs = movement_bodies(*self);
                assert(bs[j] == entity_body(self.spec_active()[j]));
                lemma_inserted_map_has(bs, j);
            }
        }
        let mut targets: Vec<SpatialCell> = Vec::new();
        let mut fields: Vec<FlowFieldMap> = Vec::new();
        let mut flow_field_unreachable_count: usize = 0;
        let mut applied_delta_count: usize = 0;
        let mut corrected_delta_count: usize = 0;
        let mut blocked_delta_count: usize = 0;
        let mut samples: Vec<SwarmMovementPreviewSample> = Vec::new();
        let mut k: usize = 0;
        while k < n
            invariant
                self.wf(),
                collision_world.wf(),
                preview_world.wf(),
                n == behaviors@.len(),
                n == movement_sample_count(self.spec_active().len(), sample_limit),
                n <= self.active_entities@.len(),
                k <= n,
                cell_set_ok(blockers.0@, blockers.1@),
                flow_bounds.min_x <= flow_bounds.max_x,
                flow_bounds.min_y <= flow_bounds.max_y,
                ({
                    let best = best_sample(aggro_samples(self.spec_config(), tick, self.spec_aggro()));
                    forall|j: int|
                        0 <= j < n ==> #[trigger] behaviors@[j] == behavior_sample(
                            self.spec_config(),
                            best,
                            self.spec_active()[j],
                            focus,
                        )
                }),
                samples@.len() == k,
                forall|j: int|
                    0 <= j < k ==> {
                        let e = self.spec_active()[j];
                        let s = #[trigger] samples@[j];
                        &&& s.entity_id == e.entity_id
                        &&& s.from_position == e.position
                        &&& s.intent_kind == behaviors@[j].intent_kind
                        &&& s.intent_target == behaviors@[j].intent_target
                        &&& (s.collision_decision is Blocked || s.collision_decision is UnknownBody) ==> s.resolved_delta
                            == (MovementDelta { dx_mm: 0, dy_mm: 0 })
                        &&& s.flow_field_result == step_flow(*self, tick, focus, sample_limit, cs_in, j).result
                        &&& s.requested_delta == step_flow(*self, tick, focus, sample_limit, cs_in, j).movement_delta
                        &&& {
                            let t = step_target(*self, tick, focus, sample_limit, cs_in, j);
                            let cs = SWARM_COLLISION_CELL_SIZE_MM as int;
                            let d = decision_for(resolved_result(ws, cs, e.entity_id, t, 1, None));
                            &&& s.collision_decision == d
                            &&& s.collision_iterations_run == resolved_stats(ws, cs, e.entity_id, t, 1, None).0
                            &&& s.collision_applied_correction_count == resolved_stats(ws, cs, e.entity_id, t, 1, None).1
                            &&& (d is Accepted || d is Corrected) ==> Some(s.resolved_delta) == resolved_delta_of(
                                ws,
                                cs,
                                e.entity_id,
                                t,
                                1,
                                None,
                            )
                        }
                    },
                cs0 == step_cell_size(cs_in),
                ws == collision_world.spec_bodies(),
                collision_world.spec_cell_size() == SWARM_COLLISION_CELL_SIZE_MM,
                body_map(ws) == inserted_map(movement_bodies(*self)),
                id_ordered_world(ws, movement_bodies(*self)),
                id_ordered_world(pw0, movement_bodies(*self)),
                behaviors@ == step_behaviors(*self, tick, focus, sample_limit),
                flow_bounds == movement_flow_bounds(step_behaviors(*self, tick, focus, sample_limit), self.spec_active(), cs0),
                blocker_set == blocker_cells(
                    self.spec_obstacle_shapes(),
                    self.spec_obstacles(),
                    cs0,
                    flow_bounds,
                    self.spec_config().collision_radius_mm,
                ),
                forall|c: SpatialCell| #[trigger] blockers.1@.contains(c) <==> blocker_set.contains(c),
                forall|t: int| 0 <= t < fields@.len() ==> swarm_entry_matches(
                    step_field_key(*self, tick, focus, sample_limit, cs_in, targets@[t]),
                    #[trigger] fields@[t],
                ),
                targets@.len() == fields@.len(),
                targets@.len() <= k,
                targets@.no_duplicates(),
                targets@.to_set() == preview_target_cells(samples@, cs0),
                cell_size_mm == cs0,
                cs0 >= 1,
                forall|j: int| 0 <= j < fields@.len() ==> (#[trigger] fields@[j]).wf(),
                flow_field_unreachable_count == samples@.filter(unreachable_sample()).len(),
                applied_delta_count + blocked_delta_count == k,
                corrected_delta_count <= applied_delta_count,
                applied_delta_count == preview_decisions(samples@).filter(moving()).len(),
                corrected_delta_count == preview_decisions(samples@).filter(correcting()).len(),
                preview_world.spec_cell_size() == SWARM_COLLISION_CELL_SIZE_MM,
                body_map(pw0) == inserted_map(movement_bodies(*self)),
                preview_world.spec_bodies() == preview_applied_world(pw0, ws, *self, tick, focus, sample_limit, cs_in, k as nat),
                forall|j: int| 0 <= j < self.spec_active().len() ==> has_body(preview_world.spec_bodies(), #[trigger] self.spec_active()[j].entity_id),
            decreases n - k,
        {
            let entity = self.active_entities[k];
            let behavior = behaviors[k];
            let entity_cell = swarm_preview_cell_for_position(entity.position, cell_size_mm);
            let target_cell = swarm_preview_cell_for_position(behavior.intent_target, cell_size_mm);
            let mut t: usize = 0;
            while t < targets.len() && !(targets[t].x == target_cell.x && targets[t].y == target_cell.y)
                invariant
                    t <= targets@.len(),
                    forall|j: int| 0 <= j < t ==> targets@[j] != target_cell,
                decreases targets@.len() - t,
            {
                t += 1;
            }
            let ghost t0 = targets@;
            if t == targets.len() {
                let field_cells = without_cell(&blockers.0, &blockers.1, target_cell);
                let ghost fkeys = field_cells.0@;
                let ghost fcells = field_cells.1@;
                proof {
                    let tset = blocker_set.remove(target_cell);
                    assert forall|c: SpatialCell| #[trigger] fcells.contains(c) <==> tset.contains(c) by {}
                    lemma_set_keys(fkeys, fcells, tset);
                }
                let built = FlowFieldMap::build(flow_bounds, target_cell, field_cells.1);
                proof {
                    match built {
                        Ok(_) => {},
                        Err(e) => {
                            assert(e == crate::movement_scale::FlowFieldError::InvalidBounds || e
                                == crate::movement_scale::FlowFieldError::GoalBlocked);
                        },
                    }
                }
                let map = built.unwrap();
                proof {
                    assert(!targets@.contains(target_cell));
                    let key = step_field_key(*self, tick, focus, sample_limit, cs_in, target_cell);
                    assert(key.2 == fkeys);
                    assert forall|c: SpatialCell| #[trigger] map.spec_blocked().contains(cell_key(c) as u64)
                        <==> (key.2.contains(cell_key(c) as u64) && in_bounds(key.0, c.x as int, c.y as int)) by {
                        lemma_cell_key(c, c);
                        if fkeys.contains(cell_key(c) as u64) {
                            let i = choose|i: int| 0 <= i < fkeys.len() && fkeys[i] == cell_key(c) as u64;
                            lemma_cell_key(fcells[i], c);
                            assert(fcells.contains(c));
                        }
                        if fcells.contains(c) {
                            let i = choose|i: int| 0 <= i < fcells.len() && fcells[i] == c;
                            assert(fkeys[i] == cell_key(c));
                        }
                    }
                    assert(swarm_entry_matches(key, map));
                }
                let ghost f0 = fields@;
                targets.push(target_cell);
                fields.push(map);
                proof {
                    assert forall|j: int| 0 <= j < fields@.len() implies (#[trigger] fields@[j]).wf() by {
                        if j < f0.len() {
                            assert(fields@[j] == f0[j]);
                        }
                    }
                    assert forall|j: int| 0 <= j < fields@.len() implies swarm_entry_matches(
                        step_field_key(*self, tick, focus, sample_limit, cs_in, targets@[j]),
                        #[trigger] fields@[j],
                    ) by {
                        if j < f0.len() {
                            assert(fields@[j] == f0[j]);
                            assert(targets@[j] == t0[j]);
                        }
                    }
                }
            } else {
                assert(targets@[t as int] == target_cell);
            }
            let flow_step = fields[t].step_from(entity_cell, cell_size_mm);
            proof {
                assert(targets@[t as int] == target_cell);
                let key = step_field_key(*self, tick, focus, sample_limit, cs_in, target_cell);
                assert(swarm_entry_matches(key, fields@[t as int]));
                lemma_keyed_flow_step(key, fields@[t as int], entity_cell);
                assert(flow_step == step_flow(*self, tick, focus, sample_limit, cs_in, k as int));
            }
            let requested_delta = flow_step.movement_delta;
            let requested_position = WorldPosition {
                x_mm: sat_add_i32(entity.position.x_mm, requested_delta.dx_mm),
                y_mm: sat_add_i32(entity.position.y_mm, requested_delta.dy_mm),
            };
            let probe = collision_world.probe_movement_after_resolution(entity.entity_id, requested_position, 1);
            let ghost wk = preview_world.spec_bodies();
            proof {
                assert(entity == self.spec_active()[k as int]);
                assert(requested_position == step_target(*self, tick, focus, sample_limit, cs_in, k as int));
            }
            let accepted = match probe.decision {
                CollisionMovementDecision::Accepted | CollisionMovementDecision::Corrected => true,
                _ => false,
            };
            let mut resolved_delta = MovementDelta { dx_mm: 0, dy_mm: 0 };
            if accepted {
                resolved_delta = probe.resolved_delta.unwrap();
                applied_delta_count = applied_delta_count + 1;
                match probe.decision {
                    CollisionMovementDecision::Corrected => {
                        corrected_delta_count = corrected_delta_count + 1;
                    },
                    _ => {},
                }
                let resolved_position = probe.resolved_position.unwrap();
                let moved = SwarmEntity { position: resolved_position, ..entity };
                proof {
                    assert(has_body(wk, self.spec_active()[k as int].entity_id));
                    assert(moved.collision_radius_mm > 0);
                }
                let _ = preview_world.insert_or_update(moved.collision_body());
                proof {
                    let w1 = preview_world.spec_bodies();
                    assert(w1 == wk.update(index_of(wk, entity.entity_id), entity_body(moved)));
                    assert forall|j: int| 0 <= j < self.spec_active().len() implies has_body(
                        w1,
                        #[trigger] self.spec_active()[j].entity_id,
                    ) by {
                        let id = self.spec_active()[j].entity_id;
                        assert(has_body(wk, id));
                        let i = choose|i: int| 0 <= i < wk.len() && wk[i].entity_id == id;
                        assert(w1[i].entity_id == id);
                    }
                }
            } else {
                blocked_delta_count = blocked_delta_count + 1;
            }
            let sample = SwarmMovementPreviewSample {
                entity_id: entity.entity_id,
                intent_kind: behavior.intent_kind,
                from_position: entity.position,
                intent_target: behavior.intent_target,
                flow_field_result: flow_step.result,
                requested_delta,
                resolved_delta,
                collision_decision: probe.decision,
                collision_iterations_run: probe.iterations_run,
                collision_applied_correction_count: probe.applied_correction_count,
            };
            let ghost s0 = samples@;
            let is_unreachable = match flow_step.result {
                FlowFieldStepResult::Blocked | FlowFieldStepResult::Unreachable => true,
                _ => false,
            };
            if is_unreachable {
                flow_field_unreachable_count = flow_field_unreachable_count + 1;
            }
            samples.push(sample);
            proof {
                assert(preview_world.spec_bodies() == preview_applied_world(pw0, ws, *self, tick, focus, sample_limit, cs_in, (k + 1) as nat));
                assert(preview_decisions(samples@) =~= preview_decisions(s0).push(sample.collision_decision));
                assert(applied_delta_count == preview_decisions(samples@).filter(moving()).len()) by {
                    preview_decisions(s0).lemma_filter_push(sample.collision_decision, moving());
                }
                assert(corrected_delta_count == preview_decisions(samples@).filter(correcting()).len()) by {
                    preview_decisions(s0).lemma_filter_push(sample.collision_decision, correcting());
                }
                assert(unreachable_sample()(sample) == is_unreachable);
                s0.lemma_filter_push(sample, unreachable_sample());
                assert(samples@ == s0.push(sample));
                assert(preview_target_cells(samples@, cs0) =~= preview_target_cells(s0, cs0).insert(target_cell)) by {
                    assert(samples@[k as int] == sample);
                    assert forall|c: SpatialCell| preview_target_cells(samples@, cs0).contains(c) implies preview_target_cells(
                        s0,
                        cs0,
                    ).insert(target_cell).contains(c) by {
                        let j = choose|j: int| 0 <= j < samples@.len() && preview_cell(samples@[j].intent_target, cs0) == c;
                        if j < k {
                            assert(s0[j] == samples@[j]);
                        }
                    }
                    assert forall|c: SpatialCell| preview_target_cells(s0, cs0).contains(c) implies preview_target_cells(
                        samples@,
                        cs0,
                    ).contains(c) by {
                        let j = choose|j: int| 0 <= j < s0.len() && preview_cell(s0[j].intent_target, cs0) == c;
                        assert(samples@[j] == s0[j]);
                    }
                }
                assert(targets@.to_set() =~= preview_target_cells(samples@, cs0)) by {
                    if t < t0.len() {
                        assert(targets@ == t0);
                        assert(t0.to_set().contains(target_cell)) by {
                            assert(t0[t as int] == target_cell);
                        }
                    } else {
                        assert(targets@ == t0.push(target_cell));
                        assert(targets@.to_set() =~= t0.to_set().insert(target_cell)) by {
                            assert forall|c: SpatialCell| targets@.to_set().contains(c) implies t0.to_set().insert(target_cell).contains(c) by {
                                let j = choose|j: int| 0 <= j < targets@.len() && targets@[j] == c;
                                if j < t0.len() {
                                    assert(t0[j] == c);
                                }
                            }
                            assert forall|c: SpatialCell| t0.to_set().insert(target_cell).contains(c) implies targets@.to_set().contains(c) by {
                                if c == target_cell {
                                    assert(targets@[t0.len() as int] == c);
                                } else {
                                    let j = choose|j: int| 0 <= j < t0.len() && t0[j] == c;
                                    assert(targets@[j] == c);
                                }
                            }
                        }
                    }
                }
            }
            k += 1;
        }
        let physics_step = preview_world.step_overlap_resolution(1);

        proof {
            targets@.unique_seq_to_set();
            assert(preview_target_cells(samples@, cs0) =~= preview_target_cells(samples@, cs_in)) by {
                assert forall|p: WorldPosition| preview_cell(p, cs0) == preview_cell(p, cs_in) by {}
            }
        }
        let report = SwarmMovementPreviewReport {
            schema: SWARM_SCHEMA,
            tick,
            sample_count: samples.len(),
            flow_field_build_count: targets.len(),
            flow_field_query_count: n,
            flow_field_unreachable_count,
            physics_candidate_count: applied_delta_count,
            physics_initial_contact_count: physics_step.initial_contact_count,
            physics_iterations_run: physics_step.iterations_run,
            physics_applied_correction_count: physics_step.applied_correction_count,
            physics_applied_correction_abs_mm_total: physics_step.applied_correction_abs_mm_total,
            physics_max_applied_correction_abs_mm: physics_step.max_applied_correction_abs_mm,
            physics_final_contact_count: physics_step.final_contact_count,
            applied_delta_count,
            corrected_delta_count,
            blocked_delta_count,
            samples,
            claim_scope: "movement_preview_only",
        };
        proof {
            assert(preview_probe_facts(ws, *self, report, tick, focus, sample_limit, cs_in));
            assert(preview_physics_facts(pw0, ws, *self, report, tick, focus, sample_limit, cs_in));
        }
        report
    }
}

/// A zombie's move, prepared for the batch probe.
#[derive(Clone, Copy)]
struct PreparedBatchMovement {
    entity_id: EntityId,
    intent_kind: SwarmIntentKind,
    from_position: WorldPosition,
    intent_target: WorldPosition,
    flow_field_result: FlowFieldStepResult,
    requested_delta: MovementDelta,
    requested_position: WorldPosition,
}

impl SwarmState {
    #[verifier::rlimit(100)]
    #[verifier::spinoff_prover]
    fn apply_flow_field_batch_movement_step_with_optional_correction_limit(
        &mut self,
        tick: Tick,
        focus: WorldPosition,
        sample_limit: usize,
        cell_size_mm: i32,
        physics_iterations: usize,
        correction_limit_abs_mm: Option<u32>,
    ) -> (r: SwarmMovementApplyReport)
        requires
            old(self).wf(),
            old(self).spec_cache_requests() + sample_limit <= u64::MAX,
        ensures
            movement_step_facts(*old(self), *final(self), r, tick, focus, sample_limit, correction_limit_abs_mm),
            movement_flow_facts(*old(self), r, tick, focus, sample_limit, cell_size_mm),
            exists|ws: Seq<CollisionBody>|
                id_ordered_world(ws, movement_bodies(*old(self))) && #[trigger] batch_probe_facts(
                    ws,
                    *old(self),
                    r,
                    tick,
                    focus,
                    sample_limit,
                    cell_size_mm,
                    correction_limit_abs_mm,
                ) && batch_settle_facts(
                    ws,
                    *old(self),
                    *final(self),
                    r,
                    tick,
                    focus,
                    sample_limit,
                    cell_size_mm,
                    correction_limit_abs_mm,
                    physics_iterations,
                ),
            r.claim_scope@ == "swarm_batch_movement_apply_opt_in"@,
    {
        let ghost cs_in = cell_size_mm;
        let cell_size_mm = if cell_size_mm < 1 { 1 } else { cell_size_mm };
        let movement_behaviors = self.movement_behaviors(tick, focus, sample_limit);
        let n = movement_behaviors.len();
        let flow_bounds = swarm_preview_flow_bounds(&movement_behaviors, &self.active_entities, cell_size_mm);
        let blockers = self.static_obstacle_blocker_cells(cell_size_mm, flow_bounds, self.config.collision_radius_mm);
        let ghost blocker_set = blocker_cells(
            self.spec_obstacle_shapes(),
            self.spec_obstacles(),
            cell_size_mm,
            flow_bounds,
            self.spec_config().collision_radius_mm,
        );
        proof {
            assert(movement_behaviors@ =~= step_behaviors(*self, tick, focus, sample_limit));
            assert(cell_size_mm == step_cell_size(cs_in));
            assert(flow_bounds == movement_flow_bounds(step_behaviors(*self, tick, focus, sample_limit), self.spec_active(), cell_size_mm));
            assert forall|c: SpatialCell| #[trigger] blockers.1@.contains(c) <==> blocker_set.contains(c) by {}
        }
        let world_result = CollisionWorld::with_bodies(SWARM_COLLISION_CELL_SIZE_MM, self.movement_collision_bodies());
        let mut collision_world = world_result.unwrap();
        let ghost ws = collision_world.spec_bodies();
        assert(id_ordered_world(ws, movement_bodies(*self))) by {
            reveal(id_ordered_world);
            collision_world.lemma_wf();
        }
        let requests_before = self.flow_field_cache.request_count;
        let builds_before = self.flow_field_cache.build_count;
        let hits_before = self.flow_field_cache.hit_count;
        let evictions_before = self.flow_field_cache.eviction_count;
        let ghost before = *self;
        let mut flow_field_query_count: usize = 0;
        let mut flow_field_unreachable_count: usize = 0;
        let mut prepared: Vec<PreparedBatchMovement> = Vec::new();
        let mut k: usize = 0;
        while k < n
            invariant
                self.wf(),
                n == movement_behaviors@.len(),
                n == movement_sample_count(before.spec_active().len(), sample_limit),
                n <= self.active_entities@.len(),
                k <= n,
                cell_set_ok(blockers.0@, blockers.1@),
                flow_bounds.min_x <= flow_bounds.max_x,
                flow_bounds.min_y <= flow_bounds.max_y,
                self.active_entities@ == before.spec_active(),
                ({
                    let best = best_sample(aggro_samples(before.spec_config(), tick, before.spec_aggro()));
                    forall|j: int|
                        0 <= j < n ==> #[trigger] movement_behaviors@[j] == behavior_sample(
                            before.spec_config(),
                            best,
                            before.spec_active()[j],
                            focus,
                        )
                }),
                prepared@.len() == k,
                forall|j: int|
                    0 <= j < k ==> {
                        let e = before.spec_active()[j];
                        &&& (#[trigger] prepared@[j]).entity_id == e.entity_id
                        &&& prepared@[j].from_position == e.position
                        &&& prepared@[j].intent_kind == movement_behaviors@[j].intent_kind
                        &&& prepared@[j].intent_target == movement_behaviors@[j].intent_target
                        &&& prepared@[j].flow_field_result == step_flow(before, tick, focus, sample_limit, cs_in, j).result
                        &&& prepared@[j].requested_delta == step_flow(before, tick, focus, sample_limit, cs_in, j).movement_delta
                        &&& prepared@[j].requested_position == step_target(before, tick, focus, sample_limit, cs_in, j)
                    },
                cell_size_mm == step_cell_size(cs_in),
                movement_behaviors@ == step_behaviors(before, tick, focus, sample_limit),
                flow_bounds == movement_flow_bounds(step_behaviors(before, tick, focus, sample_limit), before.spec_active(), cell_size_mm),
                blocker_set == blocker_cells(
                    before.spec_obstacle_shapes(),
                    before.spec_obstacles(),
                    cell_size_mm,
                    flow_bounds,
                    before.spec_config().collision_radius_mm,
                ),
                forall|c: SpatialCell| #[trigger] blockers.1@.contains(c) <==> blocker_set.contains(c),
                flow_field_query_count == k,
                flow_field_unreachable_count <= k,
                self.config == before.config,
                self.spawn_points == before.spawn_points,
                self.static_obstacles == before.static_obstacles,
                self.static_obstacle_shapes == before.static_obstacle_shapes,
                self.aggro_trails == before.aggro_trails,
                self.next_entity_id == before.next_entity_id,
                self.next_spawn_point_index == before.next_spawn_point_index,
                self.spawned_total == before.spawned_total,
                self.flow_field_cache.request_count == requests_before + k,
                requests_before + sample_limit <= u64::MAX,
                n <= sample_limit,
                self.flow_field_cache.build_count >= builds_before,
                self.flow_field_cache.hit_count >= hits_before,
                self.flow_field_cache.build_count - builds_before + self.flow_field_cache.hit_count - hits_before == k,
                self.flow_field_cache.eviction_count >= evictions_before,
                self.flow_field_cache.eviction_count - evictions_before <= k,
            decreases n - k,
        {
            let entity = self.active_entities[k];
            let behavior = movement_behaviors[k];
            let entity_cell = swarm_preview_cell_for_position(entity.position, cell_size_mm);
            let target_cell = swarm_preview_cell_for_position(behavior.intent_target, cell_size_mm);
            let field = without_cell(&blockers.0, &blockers.1, target_cell);
            let key = SwarmCacheKey { bounds: flow_bounds, target_cell, blocked: field.0, cell_size_mm };
            proof {
                lemma_cell_set_keys(field.0@, field.1@);
                let tset = blocker_set.remove(target_cell);
                assert forall|c: SpatialCell| #[trigger] field.1@.contains(c) <==> tset.contains(c) by {}
                lemma_set_keys(key.blocked@, field.1@, tset);
                assert(key.view_key() == step_field_key(
                    before,
                    tick,
                    focus,
                    sample_limit,
                    cs_in,
                    preview_cell(step_behaviors(before, tick, focus, sample_limit)[k as int].intent_target, cs_in),
                ));
            }
            let flow_step = self.flow_field_cache.step_from(key, &field.1, entity_cell);
            proof {
                assert(flow_step == step_flow(before, tick, focus, sample_limit, cs_in, k as int));
            }
            flow_field_query_count = flow_field_query_count + 1;
            match flow_step.result {
                FlowFieldStepResult::Blocked | FlowFieldStepResult::Unreachable => {
                    flow_field_unreachable_count = flow_field_unreachable_count + 1;
                },
                _ => {},
            }
            let requested_delta = flow_step.movement_delta;
            let requested_position = WorldPosition {
                x_mm: sat_add_i32(entity.position.x_mm, requested_delta.dx_mm),
                y_mm: sat_add_i32(entity.position.y_mm, requested_delta.dy_mm),
            };
            prepared.push(
                PreparedBatchMovement {
                    entity_id: entity.entity_id,
                    intent_kind: behavior.intent_kind,
                    from_position: entity.position,
                    intent_target: behavior.intent_target,
                    flow_field_result: flow_step.result,
                    requested_delta,
                    requested_position,
                },
            );
            k += 1;
        }
        let mut candidates: Vec<CollisionBatchMovementCandidate> = Vec::new();
        let mut c: usize = 0;
        while c < n
            invariant
                c <= n,
                n == prepared@.len(),
                candidates@.len() == c,
                forall|j: int| 0 <= j < c ==> (#[trigger] candidates@[j]).entity_id == prepared@[j].entity_id,
                forall|j: int|
                    0 <= j < c ==> #[trigger] candidates@[j] == (CollisionBatchMovementCandidate {
                        entity_id: prepared@[j].entity_id,
                        target_position: prepared@[j].requested_position,
                    }),
            decreases n - c,
        {
            candidates.push(
                CollisionBatchMovementCandidate {
                    entity_id: prepared[c].entity_id,
                    target_position: prepared[c].requested_position,
                },
            );
            c += 1;
        }
        let ghost cands = candidates@;
        proof {
            assert(cands =~= step_candidates(before, tick, focus, sample_limit, cs_in));
        }
        let batch_probe = match correction_limit_abs_mm {
            Some(limit_abs_mm) => collision_world.probe_batch_movements_after_resolution_with_correction_limit(
                candidates,
                1,
                limit_abs_mm,
            ),
            None => collision_world.probe_batch_movements_after_resolution(candidates, 1),
        };
        let ghost fw = batch_final_world(ws, SWARM_COLLISION_CELL_SIZE_MM as int, cands, 1, correction_limit_abs_mm);
        proof {
            assert forall|j: int| 0 <= j < n implies (#[trigger] batch_probe.samples@[j]).decision == decision_for(
                batch_result(ws, fw, cands[j]),
            ) by {
                assert(crate::collision::batch_sample_matches(batch_probe.samples@[j], ws, fw, cands[j]));
            }
            assert forall|j: int| 0 <= j < n implies crate::collision::batch_sample_matches(
                #[trigger] batch_probe.samples@[j],
                ws,
                fw,
                cands[j],
            ) by {}
            assert forall|j: int| 0 <= j < before.spec_active().len() implies has_body(ws, #[trigger] before.spec_active()[j].entity_id) by {
                let bs = movement_bodies(before);
                assert(bs[j] == entity_body(before.spec_active()[j]));
                lemma_inserted_map_has(bs, j);
            }
        }
        let ghost wf_world = collision_world.spec_bodies();
        let mut applied_delta_count: usize = 0;
        let mut corrected_delta_count: usize = 0;
        let mut blocked_delta_count: usize = 0;
        let mut physics_candidate_count: usize = 0;
        let mut samples: Vec<SwarmMovementApplySample> = Vec::new();
        let mut k: usize = 0;
        while k < n
            invariant
                self.wf(),
                collision_world.wf(),
                n == prepared@.len(),
                n == batch_probe.samples@.len(),
                n <= self.active_entities@.len(),
                k <= n,
                same_but_positions(before.spec_active(), self.active_entities@),
                forall|j: int| k <= j < self.active_entities@.len() ==> #[trigger] self.active_entities@[j] == before.spec_active()[j],
                collision_world.spec_cell_size() == SWARM_COLLISION_CELL_SIZE_MM,
                collision_world.spec_bodies() == batch_applied_world(ws, fw, cands, before, k as nat),
                forall|j: int| 0 <= j < before.spec_active().len() ==> has_body(ws, #[trigger] before.spec_active()[j].entity_id),
                n == movement_sample_count(before.spec_active().len(), sample_limit),
                forall|j: int| 0 <= j < before.spec_active().len() ==> has_body(collision_world.spec_bodies(), #[trigger] before.spec_active()[j].entity_id),
                before.wf(),
                applied_delta_count == sample_decisions(samples@).filter(moving()).len(),
                corrected_delta_count == sample_decisions(samples@).filter(correcting()).len(),
                forall|j: int| 0 <= j < k ==> (#[trigger] self.active_entities@[j]).position == samples@[j].final_position,
                forall|j: int|
                    0 <= j < n ==> {
                        let e = before.spec_active()[j];
                        &&& (#[trigger] prepared@[j]).entity_id == e.entity_id
                        &&& prepared@[j].from_position == e.position
                        &&& prepared@[j].intent_kind == movement_behaviors@[j].intent_kind
                        &&& prepared@[j].intent_target == movement_behaviors@[j].intent_target
                        &&& prepared@[j].flow_field_result == step_flow(before, tick, focus, sample_limit, cs_in, j).result
                        &&& prepared@[j].requested_delta == step_flow(before, tick, focus, sample_limit, cs_in, j).movement_delta
                    },
                samples@.len() == k,
                forall|j: int|
                    0 <= j < k ==> {
                        let e = before.spec_active()[j];
                        &&& (#[trigger] samples@[j]).entity_id == e.entity_id
                        &&& samples@[j].from_position == e.position
                        &&& samples@[j].intent_kind == movement_behaviors@[j].intent_kind
                        &&& samples@[j].intent_target == movement_behaviors@[j].intent_target
                        &&& samples@[j].flow_field_result == step_flow(before, tick, focus, sample_limit, cs_in, j).result
                        &&& samples@[j].requested_delta == step_flow(before, tick, focus, sample_limit, cs_in, j).movement_delta
                        &&& samples@[j].collision_decision == batch_probe.samples@[j].decision
                        &&& samples@[j].applied_delta == batch_probe_move(ws, fw, cands[j], e).0
                        &&& samples@[j].final_position == batch_probe_move(ws, fw, cands[j], e).1
                    },
                forall|j: int| 0 <= j < n ==> (#[trigger] batch_probe.samples@[j]).decision == decision_for(
                    batch_result(ws, fw, cands[j]),
                ),
                forall|j: int| 0 <= j < n ==> crate::collision::batch_sample_matches(#[trigger] batch_probe.samples@[j], ws, fw, cands[j]),
                cands == step_candidates(before, tick, focus, sample_limit, cs_in),
                applied_delta_count + blocked_delta_count == k,
                corrected_delta_count <= applied_delta_count,
                physics_candidate_count == applied_delta_count,
                physics_candidate_count == 0 ==> self.active_entities@ == before.spec_active(),
                self.config == before.config,
                self.spawn_points == before.spawn_points,
                self.static_obstacles == before.static_obstacles,
                self.static_obstacle_shapes == before.static_obstacle_shapes,
                self.aggro_trails == before.aggro_trails,
                self.next_entity_id == before.next_entity_id,
                self.next_spawn_point_index == before.next_spawn_point_index,
                self.spawned_total == before.spawned_total,
                self.flow_field_cache.request_count == requests_before + n,
                self.flow_field_cache.build_count >= builds_before,
                self.flow_field_cache.hit_count >= hits_before,
                self.flow_field_cache.build_count - builds_before + self.flow_field_cache.hit_count - hits_before == n,
                self.flow_field_cache.eviction_count >= evictions_before,
                self.flow_field_cache.eviction_count - evictions_before <= n,
            decreases n - k,
        {
            let p = prepared[k];
            let probe_sample = &batch_probe.samples[k];
            proof {
                assert(crate::collision::batch_sample_matches(batch_probe.samples@[k as int], ws, fw, cands[k as int]));
                assert(p.from_position == before.spec_active()[k as int].position);
                let e = before.spec_active()[k as int];
                assert(has_body(ws, e.entity_id));
                assert(cands[k as int].entity_id == e.entity_id);
            }
            let ghost wk = collision_world.spec_bodies();
            let accepted = match probe_sample.decision {
                CollisionMovementDecision::Accepted | CollisionMovementDecision::Corrected => true,
                _ => false,
            };
            let mut applied_delta = MovementDelta { dx_mm: 0, dy_mm: 0 };
            let mut final_position = p.from_position;
            if accepted && probe_sample.resolved_delta.is_some() && probe_sample.resolved_position.is_some() {
                let resolved_delta = probe_sample.resolved_delta.unwrap();
                let resolved_position = probe_sample.resolved_position.unwrap();
                applied_delta_count = applied_delta_count + 1;
                match probe_sample.decision {
                    CollisionMovementDecision::Corrected => {
                        corrected_delta_count = corrected_delta_count + 1;
                    },
                    _ => {},
                }
                physics_candidate_count = physics_candidate_count + 1;
                let entity = self.active_entities[k];
                let moved = SwarmEntity { position: resolved_position, ..entity };
                let ghost a0 = self.active_entities@;
                self.active_entities.set(k, moved);
                proof {
                    let a1 = self.active_entities@;
                    assert forall|x: int, y: int| 0 <= x < y < a1.len() implies a1[x].entity_id.0 < a1[y].entity_id.0 by {
                        assert(a0[x].entity_id == a1[x].entity_id);
                        assert(a0[y].entity_id == a1[y].entity_id);
                    }
                    assert forall|x: int| 0 <= x < a1.len() implies (#[trigger] a1[x]).entity_id.0 < self.next_entity_id.0
                        || self.next_entity_id.0 == u64::MAX by {
                        assert(a0[x].entity_id == a1[x].entity_id);
                    }
                    assert forall|x: int| 0 <= x < a1.len() implies (#[trigger] a1[x]).collision_radius_mm
                        == self.config.collision_radius_mm by {
                        assert(a0[x].collision_radius_mm == a1[x].collision_radius_mm);
                    }
                }
                proof {
                    assert(has_body(wk, before.spec_active()[k as int].entity_id));
                    assert(moved.collision_radius_mm > 0);
                }
                let _ = collision_world.insert_or_update(moved.collision_body());
                proof {
                    let w1 = collision_world.spec_bodies();
                    assert(w1 == wk.update(index_of(wk, entity.entity_id), entity_body(moved)));
                    assert forall|j: int| 0 <= j < before.spec_active().len() implies has_body(
                        w1,
                        #[trigger] before.spec_active()[j].entity_id,
                    ) by {
                        let id = before.spec_active()[j].entity_id;
                        assert(has_body(wk, id));
                        let i = choose|i: int| 0 <= i < wk.len() && wk[i].entity_id == id;
                        assert(w1[i].entity_id == id);
                    }
                }
                applied_delta = resolved_delta;
                final_position = resolved_position;
            } else {
                blocked_delta_count = blocked_delta_count + 1;
            }
            proof {
                assert(accepted && probe_sample.resolved_delta.is_some() && probe_sample.resolved_position.is_some()
                    <==> moves_on(decision_for(batch_result(ws, fw, cands[k as int]))));
                assert(collision_world.spec_bodies() == batch_applied_world(ws, fw, cands, before, (k + 1) as nat));
            }
            let ghost s0 = samples@;
            samples.push(
                SwarmMovementApplySample {
                    entity_id: p.entity_id,
                    intent_kind: p.intent_kind,
                    from_position: p.from_position,
                    intent_target: p.intent_target,
                    flow_field_result: p.flow_field_result,
                    requested_delta: p.requested_delta,
                    applied_delta,
                    collision_decision: probe_sample.decision,
                    final_position,
                },
            );
            proof {
                let x = samples@[k as int];
                assert(sample_decisions(samples@) =~= sample_decisions(s0).push(x.collision_decision));
                assert(applied_delta_count == sample_decisions(samples@).filter(moving()).len()) by {
                    sample_decisions(s0).lemma_filter_push(x.collision_decision, moving());
                }
                assert(corrected_delta_count == sample_decisions(samples@).filter(correcting()).len()) by {
                    sample_decisions(s0).lemma_filter_push(x.collision_decision, correcting());
                }
                assert forall|j: int| 0 <= j < k + 1 implies (#[trigger] self.active_entities@[j]).position
                    == samples@[j].final_position by {
                    if j < k {
                        assert(samples@[j] == s0[j]);
                    }
                }
            }
            k += 1;
        }
        let ghost wn = collision_world.spec_bodies();
        let ghost looped = *self;
        let physics_step = if physics_candidate_count > 0 {
            match correction_limit_abs_mm {
                Some(limit_abs_mm) => collision_world.step_overlap_resolution_with_correction_limit(physics_iterations, limit_abs_mm),
                None => collision_world.step_overlap_resolution(physics_iterations),
            }
        } else {
            no_physics_step(&collision_world, physics_iterations, correction_limit_abs_mm)
        };
        let physics_synced_position_count = if physics_candidate_count > 0 {
            self.sync_positions_from_collision_world(&collision_world)
        } else {
            0
        };
        let ghost pre_sync = samples@;
        let physics_sample_synced_position_count = sync_apply_samples_from_active_entities(&mut samples, &self.active_entities);
        proof {
            assert(sample_decisions(samples@) =~= sample_decisions(pre_sync));
        }
        let cache = &self.flow_field_cache;
        let report = SwarmMovementApplyReport {
            schema: SWARM_SCHEMA,
            tick,
            sample_count: samples.len(),
            flow_field_build_count: (cache.build_count - builds_before) as usize,
            flow_field_cache_request_count: cache.request_count - requests_before,
            flow_field_cache_hit_count: cache.hit_count - hits_before,
            flow_field_cache_eviction_count: cache.eviction_count - evictions_before,
            flow_field_cache_entry_count: cache.keys.len(),
            flow_field_query_count,
            flow_field_unreachable_count,
            applied_delta_count,
            corrected_delta_count,
            blocked_delta_count,
            movement_probe_correction_limit_abs_mm: batch_probe.correction_limit_abs_mm,
            movement_probe_clamped_correction_count: batch_probe.clamped_correction_count,
            physics_candidate_count,
            physics_initial_contact_count: physics_step.initial_contact_count,
            physics_iterations_run: physics_step.iterations_run,
            physics_applied_correction_count: physics_step.applied_correction_count,
            physics_applied_correction_abs_mm_total: physics_step.applied_correction_abs_mm_total,
            physics_max_applied_correction_abs_mm: physics_step.max_applied_correction_abs_mm,
            physics_correction_limit_abs_mm: physics_step.correction_limit_abs_mm,
            physics_clamped_correction_count: physics_step.clamped_correction_count,
            physics_final_contact_count: physics_step.final_contact_count,
            physics_synced_position_count,
            physics_sample_synced_position_count,
            samples,
            claim_scope: "swarm_batch_movement_apply_opt_in",
        };
        proof {
            assert(batch_probe_facts(ws, before, report, tick, focus, sample_limit, cs_in, correction_limit_abs_mm));
            assert forall|i: int| 0 <= i < before.spec_active().len() implies (#[trigger] self.spec_active()[i]).position
                == settled_position(
                wn,
                report.physics_candidate_count > 0,
                physics_iterations,
                correction_limit_abs_mm,
                before.spec_active()[i].entity_id,
                if i < n { batch_probe_move(ws, fw, cands[i], before.spec_active()[i]).1 } else { before.spec_active()[i].position },
            ) by {
                assert(looped.spec_active()[i].entity_id == before.spec_active()[i].entity_id);
                if i < n {
                    assert(looped.spec_active()[i].position == pre_sync[i].final_position);
                } else {
                    assert(looped.spec_active()[i] == before.spec_active()[i]);
                }
            }
            assert(batch_settle_facts(
                ws,
                before,
                *self,
                report,
                tick,
                focus,
                sample_limit,
                cs_in,
                correction_limit_abs_mm,
                physics_iterations,
            ));
        }
        report
    }
}

#[derive(Debug, Clone, PartialEq, Eq)]
pub struct SwarmMovementTickReport {
    pub schema: &'static str,
    pub tick: Tick,
    pub tick_report: SwarmTickReport,
    pub movement_report: SwarmMovementApplyReport,
    pub claim_scope: &'static str,
}

/// What the spawning of a tick does to a state: the tick's batch is spawned and nothing else
/// changes.
pub open spec fn spawn_facts(before: SwarmState, after: SwarmState, tick: Tick, spawned: Seq<EntityId>) -> bool {
    let k = spawn_count(before.spec_config(), before.spec_active().len(), tick);
    &&& after.wf()
    &&& after.spawn_view() == spawn_many(before.spec_config(), before.spec_spawn_points(), before.spawn_view(), tick, k)
    &&& spawned == spawned_ids(before.spec_config(), before.spec_spawn_points(), before.spawn_view(), tick, k)
    &&& after.spec_spawned_total() == before.spec_spawned_total() + k
    &&& after.spec_config() == before.spec_config()
    &&& after.spec_spawn_points() == before.spec_spawn_points()
    &&& after.spec_obstacles() == before.spec_obstacles()
    &&& after.spec_obstacle_shapes() == before.spec_obstacle_shapes()
    &&& after.spec_aggro() == before.spec_aggro()
    &&& after.spec_cache_requests() == before.spec_cache_requests()
}

/// A tick can run without overflowing its counters: the spawn total and the flow field
/// requests.
pub open spec fn tick_fits(state: SwarmState, tick: Tick, sample_limit: usize) -> bool {
    &&& state.spec_spawned_total() + spawn_count(state.spec_config(), state.spec_active().len(), tick) <= usize::MAX
    &&& state.spec_cache_requests() + sample_limit <= u64::MAX
}

/// Two movement reports with the same values, samples included.
pub open spec fn same_report(a: SwarmMovementApplyReport, b: SwarmMovementApplyReport) -> bool {
    a == (SwarmMovementApplyReport { samples: a.samples, ..b }) && a.samples@ == b.samples@
}

fn copy_movement_report(r: &SwarmMovementApplyReport) -> (c: SwarmMovementApplyReport)
    ensures
        same_report(c, *r),
{
    SwarmMovementApplyReport { samples: crate::movement_scale::copy_vec(&r.samples), ..*r }
}

impl SwarmState {
    /// One movement step: every sampled zombie asks its flow field for a step towards its
    /// intent target, the step is probed against the collision world, accepted steps are
    /// applied, and one round of physics settles the result.
    pub fn apply_flow_field_movement_step(&mut self, tick: Tick, focus: WorldPosition, sample_limit: usize, cell_size_mm: i32, physics_iterations: usize) -> (r: SwarmMovementApplyReport)
        requires
            old(self).wf(),
            old(self).spec_cache_requests() + sample_limit <= u64::MAX,
        ensures
            movement_step_facts(*old(self), *final(self), r, tick, focus, sample_limit, None),
            movement_flow_facts(*old(self), r, tick, focus, sample_limit, cell_size_mm),
            exists|ws: Seq<CollisionBody>|
                id_ordered_world(ws, movement_bodies(*old(self))) && #[trigger] single_probe_facts(
                    ws,
                    *old(self),
                    r,
                    tick,
                    focus,
                    sample_limit,
                    cell_size_mm,
                    None,
                ) && single_settle_facts(
                    ws,
                    *old(self),
                    *final(self),
                    r,
                    tick,
                    focus,
                    sample_limit,
                    cell_size_mm,
                    None,
                    physics_iterations,
                ),
            r.claim_scope@ == "swarm_movement_apply_opt_in"@,
    {
        self.apply_flow_field_movement_step_with_optional_correction_limit(tick, focus, sample_limit, cell_size_mm, physics_iterations, None)
    }

    pub fn apply_flow_field_movement_step_with_correction_limit(
        &mut self,
        tick: Tick,
        focus: WorldPosition,
        sample_limit: usize,
        cell_size_mm: i32,
        physics_iterations: usize,
        correction_limit_abs_mm: u32,
    ) -> (r: SwarmMovementApplyReport)
        requires
            old(self).wf(),
            old(self).spec_cache_requests() + sample_limit <= u64::MAX,
        ensures
            movement_step_facts(*old(self), *final(self), r, tick, focus, sample_limit, Some(correction_limit_abs_mm)),
            movement_flow_facts(*old(self), r, tick, focus, sample_limit, cell_size_mm),
            exists|ws: Seq<CollisionBody>|
                id_ordered_world(ws, movement_bodies(*old(self))) && #[trigger] single_probe_facts(
                    ws,
                    *old(self),
                    r,
                    tick,
                    focus,
                    sample_limit,
                    cell_size_mm,
                    Some(correction_limit_abs_mm),
                ) && single_settle_facts(
                    ws,
                    *old(self),
                    *final(self),
                    r,
                    tick,
                    focus,
                    sample_limit,
                    cell_size_mm,
                    Some(correction_limit_abs_mm),
                    physics_iterations,
                ),
            r.claim_scope@ == "swarm_movement_apply_opt_in"@,
    {
        self.apply_flow_field_movement_step_with_optional_correction_limit(
            tick,
            focus,
            sample_limit,
            cell_size_mm,
            physics_iterations,
            Some(correction_limit_abs_mm),
        )
    }

    /// Like `apply_flow_field_movement_step`, with all sampled moves probed together.
    pub fn apply_flow_field_batch_movement_step(&mut self, tick: Tick, focus: WorldPosition, sample_limit: usize, cell_size_mm: i32, physics_iterations: usize) -> (r: SwarmMovementApplyReport)
        requires
            old(self).wf(),
            old(self).spec_cache_requests() + sample_limit <= u64::MAX,
        ensures
            movement_step_facts(*old(self), *final(self), r, tick, focus, sample_limit, None),
            movement_flow_facts(*old(self), r, tick, focus, sample_limit, cell_size_mm),
            exists|ws: Seq<CollisionBody>|
                id_ordered_world(ws, movement_bodies(*old(self))) && #[trigger] batch_probe_facts(
                    ws,
                    *old(self),
                    r,
                    tick,
                    focus,
                    sample_limit,
                    cell_size_mm,
                    None,
                ) && batch_settle_facts(
                    ws,
                    *old(self),
                    *final(self),
                    r,
                    tick,
                    focus,
                    sample_limit,
                    cell_size_mm,
                    None,
                    physics_iterations,
                ),
            r.claim_scope@ == "swarm_batch_movement_apply_opt_in"@,
    {
        self.apply_flow_field_batch_movement_step_with_optional_correction_limit(tick, focus, sample_limit, cell_size_mm, physics_iterations, None)
    }

    pub fn apply_flow_field_batch_movement_step_with_correction_limit(
        &mut self,
        tick: Tick,
        focus: WorldPosition,
        sample_limit: usize,
        cell_size_mm: i32,
        physics_iterations: usize,
        correction_limit_abs_mm: u32,
    ) -> (r: SwarmMovementApplyReport)
        requires
            old(self).wf(),
            old(self).spec_cache_requests() + sample_limit <= u64::MAX,
        ensures
            movement_step_facts(*old(self), *final(self), r, tick, focus, sample_limit, Some(correction_limit_abs_mm)),
            movement_flow_facts(*old(self), r, tick, focus, sample_limit, cell_size_mm),
            exists|ws: Seq<CollisionBody>|
                id_ordered_world(ws, movement_bodies(*old(self))) && #[trigger] batch_probe_facts(
                    ws,
                    *old(self),
                    r,
                    tick,
                    focus,
                    sample_limit,
                    cell_size_mm,
                    Some(correction_limit_abs_mm),
                ) && batch_settle_facts(
                    ws,
                    *old(self),
                    *final(self),
                    r,
                    tick,
                    focus,
                    sample_limit,
                    cell_size_mm,
                    Some(correction_limit_abs_mm),
                    physics_iterations,
                ),
            r.claim_scope@ == "swarm_batch_movement_apply_opt_in"@,
    {
        self.apply_flow_field_batch_movement_step_with_optional_correction_limit(
            tick,
            focus,
            sample_limit,
            cell_size_mm,
            physics_iterations,
            Some(correction_limit_abs_mm),
        )
    }

    /// One tick: spawn the tick's batch, then move as the configuration says.
    pub fn tick_with_focus(&mut self, tick: Tick, focus: WorldPosition) -> (r: SwarmTickReport)
        requires
            old(self).wf(),
            tick_fits(*old(self), tick, old(self).spec_config().movement_sample_limit),
        ensures
            final(self).wf(),
            exists|mid: SwarmState| {
                &&& spawn_facts(*old(self), mid, tick, r.spawned_entity_ids@)
                &&& match old(self).spec_config().movement_mode {
                    SwarmMovementMode::SpawnOnly => r.movement is None && *final(self) == mid,
                    _ => r.movement is Some && movement_step_facts(
                        mid,
                        *final(self),
                        r.movement->Some_0,
                        tick,
                        focus,
                        mid.spec_config().movement_sample_limit,
                        mid.spec_config().movement_correction_limit_abs_mm,
                    ) && movement_flow_facts(
                        mid,
                        r.movement->Some_0,
                        tick,
                        focus,
                        mid.spec_config().movement_sample_limit,
                        mid.spec_config().movement_cell_size_mm,
                    ) && configured_step_facts(mid, *final(self), r.movement->Some_0, tick, focus),
                }
            },
            tick_report_matches(r, *final(self), tick, r.spawned_entity_ids@, r.movement),
    {
        let spawned_entity_ids = self.spawn_due_on_tick(tick);
        let ghost mid = *self;
        let movement = match self.config.movement_mode {
            SwarmMovementMode::SpawnOnly => None,
            SwarmMovementMode::FlowFieldCollision => Some(
                self.apply_flow_field_movement_step_with_optional_correction_limit(
                    tick,
                    focus,
                    self.config.movement_sample_limit,
                    self.config.movement_cell_size_mm,
                    self.config.movement_physics_iterations,
                    self.config.movement_correction_limit_abs_mm,
                ),
            ),
            SwarmMovementMode::BatchFlowFieldCollision => Some(
                self.apply_flow_field_batch_movement_step_with_optional_correction_limit(
                    tick,
                    focus,
                    self.config.movement_sample_limit,
                    self.config.movement_cell_size_mm,
                    self.config.movement_physics_iterations,
                    self.config.movement_correction_limit_abs_mm,
                ),
            ),
        };
        let r = self.tick_report(tick, spawned_entity_ids, movement);
        assert(spawn_facts(*old(self), mid, tick, r.spawned_entity_ids@));
        r
    }

    pub fn tick(&mut self, tick: Tick) -> (r: SwarmTickReport)
        requires
            old(self).wf(),
            tick_fits(*old(self), tick, old(self).spec_config().movement_sample_limit),
        ensures
            final(self).wf(),
            exists|mid: SwarmState| {
                &&& spawn_facts(*old(self), mid, tick, r.spawned_entity_ids@)
                &&& match old(self).spec_config().movement_mode {
                    SwarmMovementMode::SpawnOnly => r.movement is None && *final(self) == mid,
                    _ => r.movement is Some && movement_step_facts(
                        mid,
                        *final(self),
                        r.movement->Some_0,
                        tick,
                        WorldPosition { x_mm: 0, y_mm: 0 },
                        mid.spec_config().movement_sample_limit,
                        mid.spec_config().movement_correction_limit_abs_mm,
                    ) && movement_flow_facts(
                        mid,
                        r.movement->Some_0,
                        tick,
                        WorldPosition { x_mm: 0, y_mm: 0 },
                        mid.spec_config().movement_sample_limit,
                        mid.spec_config().movement_cell_size_mm,
                    ) && configured_step_facts(mid, *final(self), r.movement->Some_0, tick, WorldPosition { x_mm: 0, y_mm: 0 }),
                }
            },
            tick_report_matches(r, *final(self), tick, r.spawned_entity_ids@, r.movement),
    {
        self.tick_with_focus(tick, WorldPosition { x_mm: 0, y_mm: 0 })
    }

    /// A tick that spawns, then takes one movement step whatever the configured mode.
    pub fn tick_with_flow_field_movement(&mut self, tick: Tick, focus: WorldPosition, sample_limit: usize, cell_size_mm: i32, physics_iterations: usize) -> (r: SwarmMovementTickReport)
        requires
            old(self).wf(),
            tick_fits(*old(self), tick, sample_limit),
        ensures
            final(self).wf(),
            r.schema@ == SWARM_SCHEMA@,
            r.tick == tick,
            r.claim_scope@ == "swarm_movement_tick_opt_in"@,
            r.movement_report.claim_scope@ == "swarm_movement_apply_opt_in"@,
            exists|mid: SwarmState| {
                &&& spawn_facts(*old(self), mid, tick, r.tick_report.spawned_entity_ids@)
                &&& movement_step_facts(mid, *final(self), r.movement_report, tick, focus, sample_limit, None)
                &&& movement_flow_facts(mid, r.movement_report, tick, focus, sample_limit, cell_size_mm)
                &&& exists|ws: Seq<CollisionBody>|
                    id_ordered_world(ws, movement_bodies(mid)) && #[trigger] single_probe_facts(
                        ws,
                        mid,
                        r.movement_report,
                        tick,
                        focus,
                        sample_limit,
                        cell_size_mm,
                        None,
                    ) && single_settle_facts(
                        ws,
                        mid,
                        *final(self),
                        r.movement_report,
                        tick,
                        focus,
                        sample_limit,
                        cell_size_mm,
                        None,
                        physics_iterations,
                    )
            },
            tick_report_matches(r.tick_report, *final(self), tick, r.tick_report.spawned_entity_ids@, r.tick_report.movement),
            r.tick_report.movement is Some && same_report(r.tick_report.movement->Some_0, r.movement_report),
    {
        let spawned_entity_ids = self.spawn_due_on_tick(tick);
        let ghost mid = *self;
        let movement_report = self.apply_flow_field_movement_step(tick, focus, sample_limit, cell_size_mm, physics_iterations);
        let tick_report = self.tick_report(tick, spawned_entity_ids, Some(copy_movement_report(&movement_report)));
        assert(spawn_facts(*old(self), mid, tick, tick_report.spawned_entity_ids@));
        SwarmMovementTickReport { schema: SWARM_SCHEMA, tick, tick_report, movement_report, claim_scope: "swarm_movement_tick_opt_in" }
    }

    /// A tick that spawns, then takes one batch movement step whatever the configured mode.
    pub fn tick_with_batch_flow_field_movement(&mut self, tick: Tick, focus: WorldPosition, sample_limit: usize, cell_size_mm: i32, physics_iterations: usize) -> (r: SwarmMovementTickReport)
        requires
            old(self).wf(),
            tick_fits(*old(self), tick, sample_limit),
        ensures
            final(self).wf(),
            r.schema@ == SWARM_SCHEMA@,
            r.tick == tick,
            r.claim_scope@ == "swarm_batch_movement_tick_opt_in"@,
            r.movement_report.claim_scope@ == "swarm_batch_movement_apply_opt_in"@,
            exists|mid: SwarmState| {
                &&& spawn_facts(*old(self), mid, tick, r.tick_report.spawned_entity_ids@)
                &&& movement_step_facts(mid, *final(self), r.movement_report, tick, focus, sample_limit, None)
                &&& movement_flow_facts(mid, r.movement_report, tick, focus, sample_limit, cell_size_mm)
                &&& exists|ws: Seq<CollisionBody>|
                    id_ordered_world(ws, movement_bodies(mid)) && #[trigger] batch_probe_facts(
                        ws,
                        mid,
                        r.movement_report,
                        tick,
                        focus,
                        sample_limit,
                        cell_size_mm,
                        None,
                    ) && batch_settle_facts(
                        ws,
                        mid,
                        *final(self),
                        r.movement_report,
                        tick,
                        focus,
                        sample_limit,
                        cell_size_mm,
                        None,
                        physics_iterations,
                    )
            },
            tick_report_matches(r.tick_report, *final(self), tick, r.tick_report.spawned_entity_ids@, r.tick_report.movement),
            r.tick_report.movement is Some && same_report(r.tick_report.movement->Some_0, r.movement_report),
    {
        let spawned_entity_ids = self.spawn_due_on_tick(tick);
        let ghost mid = *self;
        let movement_report = self.apply_flow_field_batch_movement_step(tick, focus, sample_limit, cell_size_mm, physics_iterations);
        let tick_report = self.tick_report(tick, spawned_entity_ids, Some(copy_movement_report(&movement_report)));
        assert(spawn_facts(*old(self), mid, tick, tick_report.spawned_entity_ids@));
        SwarmMovementTickReport {
            schema: SWARM_SCHEMA,
            tick,
            tick_report,
            movement_report,
            claim_scope: "swarm_batch_movement_tick_opt_in",
        }
    }
}


#[derive(Debug, Clone, PartialEq, Eq)]
pub struct SwarmMovementDeltaSnapshotReport {
    pub schema: &'static str,
    pub tick: Tick,
    pub snapshot: Snapshot,
    pub visible_entity_count: usize,
    pub removed_entity_count: usize,
    pub aggregate_far_state_count: usize,
    pub visible_entity_ids: Vec<EntityId>,
    pub claim_scope: &'static str,
}

/// The snapshot entities of a swarm, as the snapshots list them.
pub open spec fn swarm_entity_states(active: Seq<SwarmEntity>) -> Seq<EntityState> {
    active.map_values(|e: SwarmEntity| swarm_entity_state(e))
}

/// Whether a region sees an entity on a grid of the cell size: some cell of the region holds it.
pub open spec fn swarm_region_visible(es: Seq<EntityState>, cell_size_mm: int, region: AoiRegion, id: EntityId) -> bool {
    exists|c: SpatialCell| region_contains(region, c) && #[trigger] ids_in_cell(es, cell_size_mm, c).contains(id)
}

/// A grid holding the entities of a list, on cells of the size raised to at least 1.
fn swarm_grid_for_snapshot_entities(entities: &Vec<EntityState>, cell_size_mm: i32) -> (r: SpatialGrid)
    ensures
        r.wf(),
        r.spec_cell_size() == (if cell_size_mm < 1 { 1 } else { cell_size_mm as int }),
        forall|c: SpatialCell| #[trigger] r.members(c) == ids_in_cell(entities@, r.spec_cell_size(), c),
{
    let mut columns = EntityColumns::with_capacity(entities.len());
    let mut i: usize = 0;
    while i < entities.len()
        invariant
            i <= entities@.len(),
            columns.wf(),
            columns@ == entities@.take(i as int),
        decreases entities@.len() - i,
    {
        columns.push(entities[i]);
        assert(columns@ =~= entities@.take(i + 1));
        i += 1;
    }
    assert(entities@.take(entities@.len() as int) =~= entities@);
    let mut grid = SpatialGrid::new(if cell_size_mm < 1 { 1 } else { cell_size_mm });
    grid.rebuild(&columns);
    grid
}

/// The entity of the last occurrence of an id in a snapshot's entity list.
pub open spec fn changed_since(baseline: Seq<EntityState>, e: EntityState) -> bool {
    match last_entity(baseline, e.entity_id) {
        Some(b) => b.position != e.position,
        None => false,
    }
}

/// The entities of a snapshot whose position differs from the one the baseline gives their id.
pub open spec fn changed_entities(baseline: Seq<EntityState>, entities: Seq<EntityState>) -> Seq<EntityState> {
    entities.filter(|e: EntityState| changed_since(baseline, e))
}

/// The position that the last baseline entry with an id gives it.
fn baseline_position(baseline: &Vec<EntityState>, id: EntityId) -> (r: Option<WorldPosition>)
    ensures
        r == (match last_entity(baseline@, id) {
            Some(b) => Some(b.position),
            None => None::<WorldPosition>,
        }),
{
    let mut i: usize = baseline.len();
    assert(baseline@.take(i as int) =~= baseline@);
    while i > 0
        invariant
            i <= baseline@.len(),
            last_entity(baseline@, id) == last_entity(baseline@.take(i as int), id),
        decreases i,
    {
        let ghost t = baseline@.take(i as int);
        assert(t.drop_last() =~= baseline@.take(i - 1));
        if baseline[i - 1].entity_id.0 == id.0 {
            return Some(baseline[i - 1].position);
        }
        i -= 1;
    }
    None
}

/// How many entities of a snapshot moved since a baseline snapshot: those whose id the
/// baseline holds at another position.
pub fn changed_visible_entity_count(baseline: &Snapshot, snapshot: &Snapshot) -> (r: usize)
    ensures
        r == changed_entities(baseline.entities@, snapshot.entities@).len(),
{
    let mut count: usize = 0;
    let mut i: usize = 0;
    while i < snapshot.entities.len()
        invariant
            i <= snapshot.entities@.len(),
            count == changed_entities(baseline.entities@, snapshot.entities@.take(i as int)).len(),
            count <= i,
        decreases snapshot.entities@.len() - i,
    {
        let e = snapshot.entities[i];
        let ghost pred = |x: EntityState| changed_since(baseline.entities@, x);
        proof {
            assert(snapshot.entities@.take(i + 1) =~= snapshot.entities@.take(i as int).push(e));
            snapshot.entities@.take(i as int).lemma_filter_push(e, pred);
        }
        match baseline_position(&baseline.entities, e.entity_id) {
            Some(p) => {
                if p.x_mm != e.position.x_mm || p.y_mm != e.position.y_mm {
                    count = count + 1;
                }
            },
            None => {},
        }
        i += 1;
    }
    assert(snapshot.entities@.take(snapshot.entities@.len() as int) =~= snapshot.entities@);
    count
}

/// The value at the nearest rank of a percentile in an increasing list: the element at
/// `ceil(len * percentile / 100) - 1`, kept inside the list; 0 for an empty list.
pub fn percentile_nearest_rank(sorted_values: &Vec<u64>, percentile: usize) -> (r: u64)
    requires
        sorted_values@.len() * percentile <= usize::MAX,
    ensures
        sorted_values@.len() == 0 ==> r == 0,
        sorted_values@.len() > 0 ==> r == sorted_values@[nearest_rank_index(sorted_values@.len() as int, percentile as int)],
{
    if sorted_values.len() == 0 {
        return 0;
    }
    let numerator = sorted_values.len() * percentile;
    let rank = numerator / 100 + if numerator % 100 == 0 { 0 } else { 1 };
    let index = if rank == 0 { 0 } else { rank - 1 };
    let last = sorted_values.len() - 1;
    sorted_values[if index < last { index } else { last }]
}

/// The index of the nearest rank of a percentile in a non-empty list of `len` values.
pub open spec fn nearest_rank_index(len: int, percentile: int) -> int {
    let numerator = len * percentile;
    let rank = numerator / 100 + if numerator % 100 == 0 { 0int } else { 1int };
    let index = if rank == 0 { 0 } else { rank - 1 };
    if index < len - 1 { index } else { len - 1 }
}

impl SwarmState {
    /// Whether the next tick stays inside the counters: the spawn total and the flow-field
    /// requests cannot overflow.
    pub fn can_tick(&self, tick: Tick) -> (r: bool)
        requires
            self.wf(),
        ensures
            r == tick_fits(*self, tick, self.spec_config().movement_sample_limit),
    {
        let mut count: usize = 0;
        if self.should_spawn_on_tick(tick) {
            let available_slots = self.config.max_active - self.active_entities.len();
            count = if self.config.spawn_batch_size < available_slots {
                self.config.spawn_batch_size
            } else {
                available_slots
            };
        }
        self.spawned_total <= usize::MAX - count && (self.config.movement_sample_limit as u64) <= u64::MAX
            - self.flow_field_cache.request_count
    }

    /// A delta snapshot of the swarm for one client session subscribed to a region, on a grid
    /// of the cell size (at least 1), against a baseline snapshot id.
    pub fn build_interest_delta_snapshot(
        &self,
        session_id: PlayerSessionId,
        region: AoiRegion,
        snapshot_id: u64,
        baseline_snapshot_id: u64,
        tick: Tick,
        cell_size_mm: i32,
    ) -> (r: SwarmMovementDeltaSnapshotReport)
        requires
            self.wf(),
            region_in_range(region),
        ensures
            ({
                let es = swarm_entity_states(self.spec_active());
                let cs = if cell_size_mm < 1 { 1 } else { cell_size_mm as int };
                &&& r.schema@ == SWARM_SCHEMA@
                &&& r.tick == tick
                &&& ids_sorted(r.visible_entity_ids@)
                &&& forall|id: EntityId| #[trigger] r.visible_entity_ids@.contains(id) <==> swarm_region_visible(es, cs, region, id)
                &&& r.snapshot.snapshot_id == snapshot_id
                &&& r.snapshot.baseline_snapshot_id == baseline_snapshot_id
                &&& r.snapshot.tick == tick
                &&& r.snapshot.entities@ == entities_for_ids(es, r.visible_entity_ids@)
                &&& r.snapshot.removed_entities@.len() == 0
                &&& r.visible_entity_count == r.snapshot.entities@.len()
                &&& r.removed_entity_count == 0
                &&& exists|g: SpatialGrid| {
                    &&& g.wf()
                    &&& (forall|c: SpatialCell| #[trigger] g.members(c) == ids_in_cell(es, cs, c))
                    &&& r.aggregate_far_state_count == far_states(region, g, es, g.spec_cells().len() as int).len()
                }
                &&& r.claim_scope@ == "swarm_movement_delta_snapshot_local"@
            }),
    {
        let entities = self.snapshot_entities();
        let grid = swarm_grid_for_snapshot_entities(&entities, cell_size_mm);
        let mut interest = InterestManager::new();
        interest.upsert_subscription(session_id, region);
        let update = interest.refresh_subscription(session_id, &grid).unwrap();
        let delta = build_interest_snapshot_delta(&update, &entities, &grid, snapshot_id, baseline_snapshot_id, tick);
        let visible_entity_ids = update.visible_entities;
        proof {
            let es = swarm_entity_states(self.spec_active());
            assert(entities@ == es);
            assert forall|id: EntityId| #[trigger] visible_entity_ids@.contains(id) <==> swarm_region_visible(
                es,
                grid.spec_cell_size(),
                region,
                id,
            ) by {
                if visible_entity_ids@.contains(id) {
                    let c = choose|c: SpatialCell| region_contains(region, c) && #[trigger] grid.members(c).contains(id);
                    assert(ids_in_cell(es, grid.spec_cell_size(), c).contains(id));
                }
                if swarm_region_visible(es, grid.spec_cell_size(), region, id) {
                    let c = choose|c: SpatialCell| region_contains(region, c) && #[trigger] ids_in_cell(es, grid.spec_cell_size(), c).contains(id);
                    assert(grid.members(c).contains(id));
                }
            }
            if delta.snapshot.removed_entities@.len() > 0 {
                assert(update.left_entities@.contains(update.left_entities@[0]));
            }
            assert(grid.wf() && (forall|c: SpatialCell| #[trigger] grid.members(c) == ids_in_cell(es, grid.spec_cell_size(), c)));
        }
        SwarmMovementDeltaSnapshotReport {
            schema: SWARM_SCHEMA,
            tick,
            visible_entity_count: delta.snapshot.entities.len(),
            removed_entity_count: delta.snapshot.removed_entities.len(),
            aggregate_far_state_count: delta.aggregate_far_state.len(),
            snapshot: delta.snapshot,
            visible_entity_ids,
            claim_scope: "swarm_movement_delta_snapshot_local",
        }
    }
}


#[derive(Debug, Clone, Copy, PartialEq, Eq)]
pub struct SwarmConfiguredMovementLoopMeasurementRun {
    pub sample_count: usize,
    pub tick_count_per_sample: u64,
    pub movement_sample_limit: usize,
    pub active_count: usize,
    pub spawned_count_total: usize,
    pub elapsed_us_min: u64,
    pub elapsed_us_p50: u64,
    pub elapsed_us_p95: u64,
    pub elapsed_us_p99: u64,
    pub elapsed_us_max: u64,
    pub movement_sample_count_total: usize,
    pub applied_delta_count_total: usize,
    pub physics_iterations_run_total: usize,
    pub flow_field_cache_request_count_total: u64,
    pub flow_field_cache_hit_count_total: u64,
    pub flow_field_cache_eviction_count_total: u64,
    pub flow_field_cache_entry_count_max: usize,
    pub moved_entity_count_min: usize,
    pub budget_result: BudgetResult,
    pub claim_scope: &'static str,
}

#[derive(Debug, Clone, Copy, PartialEq, Eq)]
pub struct SwarmBatchVsSingleMovementLoopMeasurementRun {
    pub sample_count: usize,
    pub tick_count_per_sample: u64,
    pub movement_sample_limit: usize,
    pub active_count: usize,
    pub single_elapsed_us_p50: u64,
    pub single_elapsed_us_p95: u64,
    pub single_elapsed_us_p99: u64,
    pub batch_elapsed_us_p50: u64,
    pub batch_elapsed_us_p95: u64,
    pub batch_elapsed_us_p99: u64,
    pub batch_to_single_elapsed_p95_bps: u32,
    pub single_movement_sample_count_total: usize,
    pub batch_movement_sample_count_total: usize,
    pub single_applied_delta_count_total: usize,
    pub batch_applied_delta_count_total: usize,
    pub single_physics_iterations_run_total: usize,
    pub batch_physics_iterations_run_total: usize,
    pub single_flow_field_cache_hit_count_total: u64,
    pub batch_flow_field_cache_hit_count_total: u64,
    pub single_flow_field_cache_eviction_count_total: u64,
    pub batch_flow_field_cache_eviction_count_total: u64,
    pub single_moved_entity_count_min: usize,
    pub batch_moved_entity_count_min: usize,
    pub budget_result: BudgetResult,
    pub claim_scope: &'static str,
}

/// The microseconds since a clock reading, at least 1; the reading's microseconds are cut to
/// 64 bits.
fn elapsed_us(started: &std::time::Instant) -> (r: u64)
    ensures
        r >= 1,
{
    let micros = duration_micros(&elapsed_since(started));
    let micros = if micros < 1 { 1 } else { micros };
    let r = micros as u64;
    if r < 1 { 1 } else { r }
}

fn sat_add_usize(a: usize, b: usize) -> (r: usize)
    ensures
        r == if a + b > usize::MAX { usize::MAX as int } else { a + b },
{
    if a <= usize::MAX - b { a + b } else { usize::MAX }
}

fn sat_add_u64(a: u64, b: u64) -> (r: u64)
    ensures
        r == if a + b > u64::MAX { u64::MAX as int } else { a + b },
{
    if a <= u64::MAX - b { a + b } else { u64::MAX }
}

/// A non-decreasing list.
pub open spec fn non_decreasing(s: Seq<u64>) -> bool {
    forall|i: int, j: int| 0 <= i <= j < s.len() ==> s[i] <= s[j]
}

/// Puts a value into a non-decreasing list, after the values not above it.
fn insert_sorted(values: &mut Vec<u64>, x: u64)
    requires
        non_decreasing(old(values)@),
    ensures
        non_decreasing(final(values)@),
        final(values)@.len() == old(values)@.len() + 1,
        final(values)@.to_multiset() == old(values)@.to_multiset().insert(x),
{
    let mut i: usize = 0;
    while i < values.len() && values[i] <= x
        invariant
            i <= values@.len(),
            forall|j: int| 0 <= j < i ==> values@[j] <= x,
        decreases values@.len() - i,
    {
        i += 1;
    }
    let ghost v0 = values@;
    values.insert(i, x);
    proof {
        assert(values@ == v0.insert(i as int, x));
        v0.to_multiset_ensures();
        assert(v0.insert(i as int, x) =~= v0.subrange(0, i as int).push(x) + v0.subrange(i as int, v0.len() as int));
        vstd::seq_lib::lemma_multiset_commutative(v0.subrange(0, i as int).push(x), v0.subrange(i as int, v0.len() as int));
        vstd::seq_lib::lemma_multiset_commutative(v0.subrange(0, i as int), v0.subrange(i as int, v0.len() as int));
        assert(v0 =~= v0.subrange(0, i as int) + v0.subrange(i as int, v0.len() as int));
        v0.subrange(0, i as int).to_multiset_ensures();
        assert forall|a: int, b: int| 0 <= a <= b < values@.len() implies values@[a] <= values@[b] by {
            if b < i {
            } else if a < i && b == i {
            } else if a < i {
                assert(values@[b] == v0[b - 1]);
                if i < v0.len() {
                    assert(v0[i as int] > x);
                    assert(v0[i as int] <= v0[b - 1]);
                }
            } else if a == i {
                if b > i {
                    assert(values@[b] == v0[b - 1]);
                    assert(v0[i as int] > x);
                }
            } else {
                assert(values@[a] == v0[a - 1]);
                assert(values@[b] == v0[b - 1]);
            }
        }
    }
}

/// The spawn points of the local load smoke: four corners routed across the map.
pub open spec fn smoke_spawn_points() -> Seq<SwarmSpawnPoint> {
    seq![
        SwarmSpawnPoint {
            spawn_id: 1,
            position: WorldPosition { x_mm: -12_000i32, y_mm: -12_000i32 },
            route_target: WorldPosition { x_mm: 40_000, y_mm: 0 },
        },
        SwarmSpawnPoint {
            spawn_id: 2,
            position: WorldPosition { x_mm: -40_000i32, y_mm: 40_000 },
            route_target: WorldPosition { x_mm: 40_000, y_mm: 0 },
        },
        SwarmSpawnPoint {
            spawn_id: 3,
            position: WorldPosition { x_mm: 90_000, y_mm: 90_000 },
            route_target: WorldPosition { x_mm: -40_000i32, y_mm: 0 },
        },
        SwarmSpawnPoint {
            spawn_id: 4,
            position: WorldPosition { x_mm: 12_000, y_mm: 12_000 },
            route_target: WorldPosition { x_mm: -40_000i32, y_mm: 0 },
        },
    ]
}

/// The spawn points of the local load smoke: four corners routed across the map.
pub fn load_smoke_spawn_points() -> (r: Vec<SwarmSpawnPoint>)
    ensures
        r@.len() == 4,
        r@ == smoke_spawn_points(),
{
    vec![
        SwarmSpawnPoint {
            spawn_id: 1,
            position: WorldPosition { x_mm: -12_000, y_mm: -12_000 },
            route_target: WorldPosition { x_mm: 40_000, y_mm: 0 },
        },
        SwarmSpawnPoint {
            spawn_id: 2,
            position: WorldPosition { x_mm: -40_000, y_mm: 40_000 },
            route_target: WorldPosition { x_mm: 40_000, y_mm: 0 },
        },
        SwarmSpawnPoint {
            spawn_id: 3,
            position: WorldPosition { x_mm: 90_000, y_mm: 90_000 },
            route_target: WorldPosition { x_mm: -40_000, y_mm: 0 },
        },
        SwarmSpawnPoint {
            spawn_id: 4,
            position: WorldPosition { x_mm: 12_000, y_mm: 12_000 },
            route_target: WorldPosition { x_mm: -40_000, y_mm: 0 },
        },
    ]
}

/// The aggro stimulus that the measurement set-up records before a tick: a far one before
/// tick 180 and a near one before tick 240.
pub open spec fn setup_stimulus(tick: u64) -> Option<AggroStimulus> {
    if tick == 180 {
        Some(
            AggroStimulus {
                source_entity_id: EntityId(1_800),
                position: WorldPosition { x_mm: 35_000, y_mm: 0 },
                tick: Tick(180),
                strength: 40,
            },
        )
    } else if tick == 240 {
        Some(
            AggroStimulus {
                source_entity_id: EntityId(2_400),
                position: WorldPosition { x_mm: 15_000, y_mm: 5_000 },
                tick: Tick(240),
                strength: 80,
            },
        )
    } else {
        None
    }
}

/// `after` is `before` with a stimulus recorded: the trail of its source is replaced by it,
/// the other trails and everything else kept.
pub open spec fn stimulus_recorded(before: SwarmState, after: SwarmState, stimulus: AggroStimulus) -> bool {
    &&& after.wf()
    &&& after.spec_config() == before.spec_config()
    &&& after.spec_spawn_points() == before.spec_spawn_points()
    &&& after.spec_active() == before.spec_active()
    &&& after.spec_obstacles() == before.spec_obstacles()
    &&& after.spec_obstacle_shapes() == before.spec_obstacle_shapes()
    &&& after.spec_next_id() == before.spec_next_id()
    &&& after.spec_next_spawn_index() == before.spec_next_spawn_index()
    &&& after.spec_spawned_total() == before.spec_spawned_total()
    &&& forall|k: int|
        0 <= k < after.spec_aggro().len() && (#[trigger] after.spec_aggro()[k]).source_entity_id == stimulus.source_entity_id
            ==> after.spec_aggro()[k] == stimulus
    &&& after.spec_aggro().contains(stimulus)
    &&& forall|k: int|
        0 <= k < before.spec_aggro().len() && (#[trigger] before.spec_aggro()[k]).source_entity_id != stimulus.source_entity_id
            ==> after.spec_aggro().contains(before.spec_aggro()[k])
    &&& forall|k: int|
        0 <= k < after.spec_aggro().len() && (#[trigger] after.spec_aggro()[k]).source_entity_id != stimulus.source_entity_id
            ==> before.spec_aggro().contains(after.spec_aggro()[k])
}

/// The state before a set-up tick's swarm tick: the tick's stimulus recorded, if it has one.
pub open spec fn setup_recorded(before: SwarmState, after: SwarmState, tick: u64) -> bool {
    match setup_stimulus(tick) {
        Some(stimulus) => stimulus_recorded(before, after, stimulus),
        None => after == before,
    }
}

/// `after` is `before` after one swarm tick with no focus: the tick's spawns, then the movement
/// step of the configured mode, if any.
pub open spec fn ticked(before: SwarmState, after: SwarmState, tick: Tick) -> bool {
    &&& after.wf()
    &&& exists|mid: SwarmState, spawned: Seq<EntityId>|
        #[trigger] spawn_facts(before, mid, tick, spawned) && match before.spec_config().movement_mode {
            SwarmMovementMode::SpawnOnly => after == mid,
            _ => exists|m: SwarmMovementApplyReport|
                #[trigger] movement_step_facts(
                    mid,
                    after,
                    m,
                    tick,
                    WorldPosition { x_mm: 0, y_mm: 0 },
                    mid.spec_config().movement_sample_limit,
                    mid.spec_config().movement_correction_limit_abs_mm,
                ) && movement_flow_facts(
                    mid,
                    m,
                    tick,
                    WorldPosition { x_mm: 0, y_mm: 0 },
                    mid.spec_config().movement_sample_limit,
                    mid.spec_config().movement_cell_size_mm,
                ),
        }
}

/// One set-up tick from `before` to `after`: the stimulus of the tick recorded, the tick
/// fitting the counters, then the swarm tick.
pub open spec fn setup_step(before: SwarmState, after: SwarmState, tick: u64) -> bool {
    exists|mid: SwarmState|
        #[trigger] setup_recorded(before, mid, tick) && tick_fits(mid, Tick(tick), mid.spec_config().movement_sample_limit)
            && ticked(mid, after, Tick(tick))
}

/// A run of the measurement set-up: `trace[t]` is the swarm before tick `t`; every tick of the
/// trace ran; the run ends after tick 249, or earlier at the first tick that would not fit
/// the counters, with that tick's stimulus recorded.
pub open spec fn setup_run(trace: Seq<SwarmState>, before: SwarmState, after: SwarmState) -> bool {
    &&& 1 <= trace.len() <= SWARM_MEASUREMENT_SETUP_TICK_COUNT + 1
    &&& trace[0] == before
    &&& forall|t: int| 0 <= t < trace.len() - 1 ==> #[trigger] setup_step(trace[t], trace[t + 1], t as u64)
    &&& if trace.len() == SWARM_MEASUREMENT_SETUP_TICK_COUNT + 1 {
        after == trace.last()
    } else {
        exists|mid: SwarmState|
            #[trigger] setup_recorded(trace.last(), mid, (trace.len() - 1) as u64) && !tick_fits(
                mid,
                Tick((trace.len() - 1) as u64),
                mid.spec_config().movement_sample_limit,
            ) && after == mid
    }
}

/// Runs the measurement set-up ticks: spawn ticks 0 to 249, with a far aggro stimulus at tick
/// 180 and a near one at tick 240. A tick that would overflow the counters ends the run.
pub fn prepare_swarm_movement_measurement_base(base_swarm: &mut SwarmState)
    requires
        old(base_swarm).wf(),
    ensures
        final(base_swarm).wf(),
        final(base_swarm).spec_config() == old(base_swarm).spec_config(),
        exists|trace: Seq<SwarmState>| #[trigger] setup_run(trace, *old(base_swarm), *final(base_swarm)),
{
    let mut tick: u64 = 0;
    let ghost mut trace: Seq<SwarmState> = seq![*base_swarm];
    while tick < SWARM_MEASUREMENT_SETUP_TICK_COUNT
        invariant
            base_swarm.wf(),
            base_swarm.spec_config() == old(base_swarm).spec_config(),
            tick <= SWARM_MEASUREMENT_SETUP_TICK_COUNT,
            trace.len() == tick + 1,
            trace[0] == *old(base_swarm),
            trace.last() == *base_swarm,
            forall|t: int| 0 <= t < trace.len() - 1 ==> #[trigger] setup_step(trace[t], trace[t + 1], t as u64),
        ensures
            base_swarm.wf(),
            base_swarm.spec_config() == old(base_swarm).spec_config(),
            setup_run(trace, *old(base_swarm), *base_swarm),
        decreases SWARM_MEASUREMENT_SETUP_TICK_COUNT - tick,
    {
        let ghost start = *base_swarm;
        if tick == 180 {
            base_swarm.record_aggro_stimulus(
                AggroStimulus {
                    source_entity_id: EntityId(1_800),
                    position: WorldPosition { x_mm: 35_000, y_mm: 0 },
                    tick: Tick(tick),
                    strength: 40,
                },
            );
        }
        if tick == 240 {
            base_swarm.record_aggro_stimulus(
                AggroStimulus {
                    source_entity_id: EntityId(2_400),
                    position: WorldPosition { x_mm: 15_000, y_mm: 5_000 },
                    tick: Tick(tick),
                    strength: 80,
                },
            );
        }
        let ghost mid = *base_swarm;
        proof {
            assert(setup_recorded(start, mid, tick));
        }
        if !base_swarm.can_tick(Tick(tick)) {
            proof {
                assert(trace.last() == start);
                assert((trace.len() - 1) as u64 == tick);
                assert(setup_recorded(trace.last(), mid, (trace.len() - 1) as u64));
                assert(!tick_fits(mid, Tick((trace.len() - 1) as u64), mid.spec_config().movement_sample_limit));
                assert(setup_run(trace, *old(base_swarm), *base_swarm));
            }
            return;
        }
        let r = base_swarm.tick(Tick(tick));
        proof {
            let after = *base_swarm;
            let m = choose|m: SwarmState| {
                &&& spawn_facts(mid, m, Tick(tick), r.spawned_entity_ids@)
                &&& match mid.spec_config().movement_mode {
                    SwarmMovementMode::SpawnOnly => r.movement is None && after == m,
                    _ => r.movement is Some && movement_step_facts(
                        m,
                        after,
                        r.movement->Some_0,
                        Tick(tick),
                        WorldPosition { x_mm: 0, y_mm: 0 },
                        m.spec_config().movement_sample_limit,
                        m.spec_config().movement_correction_limit_abs_mm,
                    ) && movement_flow_facts(
                        m,
                        r.movement->Some_0,
                        Tick(tick),
                        WorldPosition { x_mm: 0, y_mm: 0 },
                        m.spec_config().movement_sample_limit,
                        m.spec_config().movement_cell_size_mm,
                    ),
                }
            };
            assert(spawn_facts(mid, m, Tick(tick), r.spawned_entity_ids@));
            match mid.spec_config().movement_mode {
                SwarmMovementMode::SpawnOnly => {},
                _ => {
                    assert(movement_step_facts(
                        m,
                        after,
                        r.movement->Some_0,
                        Tick(tick),
                        WorldPosition { x_mm: 0, y_mm: 0 },
                        m.spec_config().movement_sample_limit,
                        m.spec_config().movement_correction_limit_abs_mm,
                    ));
                },
            }
            assert(ticked(mid, after, Tick(tick)));
            assert(setup_recorded(start, mid, tick));
            assert(setup_step(start, after, tick));
            let t0 = trace;
            trace = trace.push(after);
            assert forall|t: int| 0 <= t < trace.len() - 1 implies #[trigger] setup_step(trace[t], trace[t + 1], t as u64) by {
                if t < t0.len() - 1 {
                    assert(trace[t] == t0[t] && trace[t + 1] == t0[t + 1]);
                } else {
                    assert(trace[t] == start);
                }
            }
        }
        tick += 1;
    }
}

/// The local smoke configuration.
pub open spec fn smoke_config() -> SwarmConfig {
    SwarmConfig {
        start_tick: Tick(20),
        spawn_interval_ticks: 5,
        spawn_batch_size: 32,
        max_active: 1_000,
        route_pressure_radius_mm: 10_000,
        collision_radius_mm: 350,
        direct_aggro_ticks: 20,
        aggro_memory_ticks: 120,
        full_lod_distance_mm: 20_000,
        reduced_lod_distance_mm: 80_000,
        movement_mode: SwarmMovementMode::SpawnOnly,
        movement_sample_limit: SWARM_RESOLVED_ADMISSION_SAMPLE_COUNT,
        movement_cell_size_mm: SWARM_MOVEMENT_PREVIEW_CELL_SIZE_MM,
        movement_physics_iterations: 1,
        movement_correction_limit_abs_mm: None,
    }
}

/// A fresh local smoke swarm: the smoke configuration and spawn points, no zombies,
/// obstacles or trails, ids from 50 000, and an empty flow-field cache.
pub open spec fn fresh_smoke_swarm(s: SwarmState) -> bool {
    &&& s.wf()
    &&& s.spec_config() == smoke_config()
    &&& s.spec_spawn_points() == smoke_spawn_points()
    &&& s.spec_active() == Seq::<SwarmEntity>::empty()
    &&& s.spec_obstacles() == Seq::<CollisionBody>::empty()
    &&& s.spec_obstacle_shapes() == Seq::<MapShape>::empty()
    &&& s.spec_aggro() == Seq::<AggroStimulus>::empty()
    &&& s.spec_next_id() == 50_000
    &&& s.spec_next_spawn_index() == 0
    &&& s.spec_spawned_total() == 0
    &&& s.spec_cache_requests() == 0
    &&& s.spec_cache().spec_keys().len() == 0
    &&& s.spec_cache().spec_stats() == (SwarmFlowFieldCacheStats { request_count: 0, build_count: 0, hit_count: 0, eviction_count: 0 })
}

/// The measurement base: a fresh local smoke swarm after the measurement set-up run.
pub open spec fn is_measurement_base(b: SwarmState) -> bool {
    exists|start: SwarmState, trace: Seq<SwarmState>| fresh_smoke_swarm(start) && #[trigger] setup_run(trace, start, b)
}

/// `after` is `before` with only its movement configuration switched to `mode`, with the
/// loop's sample limit, the preview cell size and one physics round.
pub open spec fn switched_to_loop_mode(before: SwarmState, after: SwarmState, mode: SwarmMovementMode) -> bool {
    &&& after.wf()
    &&& after.spec_config() == (SwarmConfig {
        movement_mode: mode,
        movement_sample_limit: SWARM_CONFIGURED_MOVEMENT_LOOP_SAMPLE_COUNT,
        movement_cell_size_mm: SWARM_MOVEMENT_PREVIEW_CELL_SIZE_MM,
        movement_physics_iterations: 1,
        movement_correction_limit_abs_mm: None,
        ..before.spec_config()
    })
    &&& after.spec_spawn_points() == before.spec_spawn_points()
    &&& after.spec_active() == before.spec_active()
    &&& after.spec_obstacles() == before.spec_obstacles()
    &&& after.spec_obstacle_shapes() == before.spec_obstacle_shapes()
    &&& after.spec_aggro() == before.spec_aggro()
    &&& after.spec_next_id() == before.spec_next_id()
    &&& after.spec_next_spawn_index() == before.spec_next_spawn_index()
    &&& after.spec_spawned_total() == before.spec_spawned_total()
    &&& after.spec_cache() == before.spec_cache()
}

impl SwarmState {
    /// The local smoke swarm after the measurement set-up ticks.
    fn measurement_base() -> (r: SwarmState)
        ensures
            r.wf(),
            is_measurement_base(r),
    {
        let config = SwarmConfig::local_scale_smoke();
        let points = load_smoke_spawn_points();
        let created = SwarmState::new(config, points, EntityId(50_000));
        let mut swarm = created.unwrap();
        let ghost start = swarm;
        proof {
            assert(start.spec_spawn_points() == smoke_spawn_points());
            assert(fresh_smoke_swarm(start));
        }
        prepare_swarm_movement_measurement_base(&mut swarm);
        swarm
    }

    /// Switches the swarm to another movement configuration, keeping everything else.
    pub fn set_movement_config(&mut self, config: SwarmConfig)
        requires
            old(self).wf(),
            config == (SwarmConfig {
                movement_mode: config.movement_mode,
                movement_sample_limit: config.movement_sample_limit,
                movement_cell_size_mm: config.movement_cell_size_mm,
                movement_physics_iterations: config.movement_physics_iterations,
                movement_correction_limit_abs_mm: config.movement_correction_limit_abs_mm,
                ..old(self).spec_config()
            }),
            config.movement_sample_limit > 0,
            config.movement_cell_size_mm > 0,
            config.movement_physics_iterations > 0,
        ensures
            final(self).wf(),
            final(self).spec_config() == config,
            final(self).spec_spawn_points() == old(self).spec_spawn_points(),
            final(self).spec_active() == old(self).spec_active(),
            final(self).spec_obstacles() == old(self).spec_obstacles(),
            final(self).spec_obstacle_shapes() == old(self).spec_obstacle_shapes(),
            final(self).spec_aggro() == old(self).spec_aggro(),
            final(self).spec_next_id() == old(self).spec_next_id(),
            final(self).spec_next_spawn_index() == old(self).spec_next_spawn_index(),
            final(self).spec_spawned_total() == old(self).spec_spawned_total(),
            final(self).spec_cache() == old(self).spec_cache(),
    {
        self.config = config;
    }

    /// How many of the zombies moved from the positions of a list of earlier zombies, found by id.
    fn moved_entity_count(&self, start: &Vec<SwarmEntity>) -> (r: usize)
        ensures
            r <= self.active_entities@.len(),
            r == moved_count(start@, self.spec_active()),
    {
        let ghost pred = |e: SwarmEntity| moved_from(start@, e);
        let mut count: usize = 0;
        let mut i: usize = 0;
        while i < self.active_entities.len()
            invariant
                i <= self.active_entities@.len(),
                count <= i,
                pred == (|e: SwarmEntity| moved_from(start@, e)),
                count == self.active_entities@.take(i as int).filter(pred).len(),
            decreases self.active_entities@.len() - i,
        {
            let e = self.active_entities[i];
            let mut j: usize = 0;
            let mut moved = false;
            while j < start.len()
                invariant
                    j <= start@.len(),
                    moved == moved_from(start@.take(j as int), e),
                decreases start@.len() - j,
            {
                proof {
                    assert(start@.take(j + 1).drop_last() =~= start@.take(j as int));
                }
                if start[j].entity_id.0 == e.entity_id.0 {
                    moved = start[j].position.x_mm != e.position.x_mm || start[j].position.y_mm != e.position.y_mm;
                }
                j += 1;
            }
            proof {
                assert(start@.take(start@.len() as int) =~= start@);
                assert(self.active_entities@.take(i + 1) =~= self.active_entities@.take(i as int).push(e));
                self.active_entities@.take(i as int).lemma_filter_push(e, pred);
            }
            if moved {
                count = count + 1;
            }
            i += 1;
        }
        proof {
            assert(self.active_entities@.take(self.active_entities@.len() as int) =~= self.active_entities@);
        }
        count
    }
}

/// The sum of a list of counts, saturating at `cap` after each addition.
pub open spec fn sat_total(xs: Seq<int>, cap: int) -> int
    decreases xs.len(),
{
    if xs.len() == 0 {
        0
    } else {
        let p = sat_total(xs.drop_last(), cap) + xs.last();
        if p <= cap {
            p
        } else {
            cap
        }
    }
}

/// The largest of a list of counts, 0 for none.
pub open spec fn seq_max(xs: Seq<int>) -> int
    decreases xs.len(),
{
    if xs.len() == 0 {
        0
    } else {
        let p = seq_max(xs.drop_last());
        if xs.last() > p {
            xs.last()
        } else {
            p
        }
    }
}

/// A count of a tick report's movement step, 0 where the tick did not move: 0 the samples,
/// 1 the applied moves, 2 the physics rounds, 3 the cache requests, 4 the cache hits, 5 the
/// evictions, otherwise the cache entries after the step.
pub open spec fn movement_field(t: SwarmTickReport, which: int) -> int {
    match t.movement {
        Some(m) => if which == 0 {
            m.sample_count as int
        } else if which == 1 {
            m.applied_delta_count as int
        } else if which == 2 {
            m.physics_iterations_run as int
        } else if which == 3 {
            m.flow_field_cache_request_count as int
        } else if which == 4 {
            m.flow_field_cache_hit_count as int
        } else if which == 5 {
            m.flow_field_cache_eviction_count as int
        } else {
            m.flow_field_cache_entry_count as int
        },
        None => 0,
    }
}

/// One movement count of each of a list of tick reports.
pub open spec fn movement_fields(ticks: Seq<SwarmTickReport>, which: int) -> Seq<int> {
    ticks.map_values(|t: SwarmTickReport| movement_field(t, which))
}

/// The spawn counts of a list of tick reports.
pub open spec fn spawn_counts(ticks: Seq<SwarmTickReport>) -> Seq<int> {
    ticks.map_values(|t: SwarmTickReport| t.spawned_entity_ids@.len() as int)
}

/// What one tick with a focus does, as `tick_with_focus` states it.
pub open spec fn focus_tick_facts(before: SwarmState, after: SwarmState, r: SwarmTickReport, tick: Tick, focus: WorldPosition) -> bool {
    &&& after.wf()
    &&& exists|mid: SwarmState| {
        &&& #[trigger] spawn_facts(before, mid, tick, r.spawned_entity_ids@)
        &&& match before.spec_config().movement_mode {
            SwarmMovementMode::SpawnOnly => r.movement is None && after == mid,
            _ => r.movement is Some && movement_step_facts(
                mid,
                after,
                r.movement->Some_0,
                tick,
                focus,
                mid.spec_config().movement_sample_limit,
                mid.spec_config().movement_correction_limit_abs_mm,
            ) && movement_flow_facts(
                mid,
                r.movement->Some_0,
                tick,
                focus,
                mid.spec_config().movement_sample_limit,
                mid.spec_config().movement_cell_size_mm,
            ) && configured_step_facts(mid, after, r.movement->Some_0, tick, focus),
        }
    }
    &&& tick_report_matches(r, after, tick, r.spawned_entity_ids@, r.movement)
}

/// Whether a zombie moved from where a list of earlier zombies put it: the last earlier zombie
/// with its id stood elsewhere (a zombie with no earlier entry did not move).
pub open spec fn moved_from(start: Seq<SwarmEntity>, e: SwarmEntity) -> bool
    decreases start.len(),
{
    if start.len() == 0 {
        false
    } else if start.last().entity_id.0 == e.entity_id.0 {
        start.last().position != e.position
    } else {
        moved_from(start.drop_last(), e)
    }
}

/// How many zombies of a list moved from where a list of earlier zombies put them.
pub open spec fn moved_count(start: Seq<SwarmEntity>, now: Seq<SwarmEntity>) -> int {
    now.filter(|e: SwarmEntity| moved_from(start, e)).len() as int
}

/// A sample of the configured movement loop: from a swarm in the measured movement mode, up
/// to the loop's ticks after `final_tick`, each one as `tick_with_focus` states, stopping
/// early only at a tick that would not fit the counters; the sample reports the final active
/// count, the saturating totals and the largest cache of the ticks, and how many zombies
/// moved.
pub open spec fn loop_sample_facts(
    states: Seq<SwarmState>,
    ticks: Seq<SwarmTickReport>,
    r: SwarmConfiguredMovementLoopMeasurementRun,
    final_tick: Tick,
    focus: WorldPosition,
    movement_mode: SwarmMovementMode,
) -> bool {
    let last = states.last();
    let um = usize::MAX as int;
    let lm = u64::MAX as int;
    &&& states.len() == ticks.len() + 1
    &&& ticks.len() <= SWARM_CONFIGURED_MOVEMENT_LOOP_TICK_COUNT
    &&& exists|base: SwarmState| is_measurement_base(base) && #[trigger] switched_to_loop_mode(base, states[0], movement_mode)
    &&& states[0].wf()
    &&& states[0].spec_config().movement_mode == movement_mode
    &&& states[0].spec_config().movement_sample_limit == SWARM_CONFIGURED_MOVEMENT_LOOP_SAMPLE_COUNT
    &&& states[0].spec_config().movement_cell_size_mm == SWARM_MOVEMENT_PREVIEW_CELL_SIZE_MM
    &&& states[0].spec_config().movement_physics_iterations == 1
    &&& forall|i: int|
        0 <= i < ticks.len() ==> #[trigger] focus_tick_facts(states[i], states[i + 1], ticks[i], Tick((final_tick.0 + 1 + i) as u64), focus)
    &&& ticks.len() < SWARM_CONFIGURED_MOVEMENT_LOOP_TICK_COUNT ==> !tick_fits(
        last,
        Tick((final_tick.0 + 1 + ticks.len()) as u64),
        last.spec_config().movement_sample_limit,
    )
    &&& r.active_count == last.spec_active().len()
    &&& r.spawned_count_total == sat_total(spawn_counts(ticks), um)
    &&& r.movement_sample_count_total == sat_total(movement_fields(ticks, 0), um)
    &&& r.applied_delta_count_total == sat_total(movement_fields(ticks, 1), um)
    &&& r.physics_iterations_run_total == sat_total(movement_fields(ticks, 2), um)
    &&& r.flow_field_cache_request_count_total == sat_total(movement_fields(ticks, 3), lm)
    &&& r.flow_field_cache_hit_count_total == sat_total(movement_fields(ticks, 4), lm)
    &&& r.flow_field_cache_eviction_count_total == sat_total(movement_fields(ticks, 5), lm)
    &&& r.flow_field_cache_entry_count_max == seq_max(movement_fields(ticks, 6))
    &&& r.moved_entity_count_min == moved_count(states[0].spec_active(), last.spec_active())
}

/// Adding one count to a saturating total.
proof fn lemma_sat_total_push(xs: Seq<int>, v: int, cap: int)
    ensures
        sat_total(xs.push(v), cap) == (if sat_total(xs, cap) + v <= cap { sat_total(xs, cap) + v } else { cap }),
        seq_max(xs.push(v)) == (if v > seq_max(xs) { v } else { seq_max(xs) }),
{
    assert(xs.push(v).drop_last() =~= xs);
}

/// Adding one count to a running minimum.
proof fn lemma_seq_min_push(xs: Seq<int>, v: int, init: int)
    ensures
        seq_min_from(xs.push(v), init) == (if v < seq_min_from(xs, init) { v } else { seq_min_from(xs, init) }),
{
    assert(xs.push(v).drop_last() =~= xs);
}

/// One sample of the configured movement loop: the set-up swarm switched to a movement mode,
/// then the loop ticks after the set-up, timed.
#[verifier::rlimit(80)]
#[verifier::spinoff_prover]
fn run_configured_movement_loop_sample(final_tick: Tick, focus: WorldPosition, movement_mode: SwarmMovementMode) -> (r:
    SwarmConfiguredMovementLoopMeasurementRun)
    requires
        movement_mode != SwarmMovementMode::SpawnOnly,
        final_tick.0 + 1 + SWARM_CONFIGURED_MOVEMENT_LOOP_TICK_COUNT <= u64::MAX,
    ensures
        r.sample_count == 1,
        r.tick_count_per_sample == SWARM_CONFIGURED_MOVEMENT_LOOP_TICK_COUNT,
        r.movement_sample_limit == SWARM_CONFIGURED_MOVEMENT_LOOP_SAMPLE_COUNT,
        r.elapsed_us_min >= 1,
        r.elapsed_us_min == r.elapsed_us_p50 && r.elapsed_us_p50 == r.elapsed_us_p95 && r.elapsed_us_p95 == r.elapsed_us_p99
            && r.elapsed_us_p99 == r.elapsed_us_max,
        r.budget_result == BudgetResult::Blocked,
        r.claim_scope@ == "local_measured_harness_only"@,
        exists|states: Seq<SwarmState>, ticks: Seq<SwarmTickReport>|
            #[trigger] loop_sample_facts(states, ticks, r, final_tick, focus, movement_mode),
{
    let mut swarm = SwarmState::measurement_base();
    let base_config = swarm.config;
    let config = match movement_mode {
        SwarmMovementMode::BatchFlowFieldCollision => base_config.with_batch_flow_field_collision_movement(
            SWARM_CONFIGURED_MOVEMENT_LOOP_SAMPLE_COUNT,
            SWARM_MOVEMENT_PREVIEW_CELL_SIZE_MM,
            1,
        ),
        _ => base_config.with_flow_field_collision_movement(
            SWARM_CONFIGURED_MOVEMENT_LOOP_SAMPLE_COUNT,
            SWARM_MOVEMENT_PREVIEW_CELL_SIZE_MM,
            1,
        ),
    };
    let ghost mb = swarm;
    swarm.set_movement_config(config);
    proof {
        assert(switched_to_loop_mode(mb, swarm, movement_mode));
    }
    let start_entities = crate::movement_scale::copy_vec(&swarm.active_entities);
    let started = clock_now();
    let mut spawned_count_total: usize = 0;
    let mut movement_sample_count_total: usize = 0;
    let mut applied_delta_count_total: usize = 0;
    let mut physics_iterations_run_total: usize = 0;
    let mut flow_field_cache_request_count_total: u64 = 0;
    let mut flow_field_cache_hit_count_total: u64 = 0;
    let mut flow_field_cache_eviction_count_total: u64 = 0;
    let mut flow_field_cache_entry_count_max: usize = 0;
    let mut tick_offset: u64 = 0;
    let mut stopped = false;
    let ghost base = swarm;
    let ghost mut states: Seq<SwarmState> = seq![swarm];
    let ghost mut ticks: Seq<SwarmTickReport> = Seq::empty();
    let ghost um = usize::MAX as int;
    let ghost lm = u64::MAX as int;
    while tick_offset < SWARM_CONFIGURED_MOVEMENT_LOOP_TICK_COUNT && !stopped
        invariant
            swarm.wf(),
            final_tick.0 + 1 + SWARM_CONFIGURED_MOVEMENT_LOOP_TICK_COUNT <= u64::MAX,
            tick_offset <= SWARM_CONFIGURED_MOVEMENT_LOOP_TICK_COUNT,
            um == usize::MAX as int,
            lm == u64::MAX as int,
            base.wf(),
            is_measurement_base(mb),
            switched_to_loop_mode(mb, base, movement_mode),
            base.spec_config().movement_mode == movement_mode,
            base.spec_config().movement_sample_limit == SWARM_CONFIGURED_MOVEMENT_LOOP_SAMPLE_COUNT,
            base.spec_config().movement_cell_size_mm == SWARM_MOVEMENT_PREVIEW_CELL_SIZE_MM,
            base.spec_config().movement_physics_iterations == 1,
            start_entities@ == base.spec_active(),
            states.len() == ticks.len() + 1,
            ticks.len() == tick_offset,
            states[0] == base,
            states.last() == swarm,
            forall|i: int|
                0 <= i < ticks.len() ==> #[trigger] focus_tick_facts(
                    states[i],
                    states[i + 1],
                    ticks[i],
                    Tick((final_tick.0 + 1 + i) as u64),
                    focus,
                ),
            stopped ==> !tick_fits(swarm, Tick((final_tick.0 + 1 + tick_offset) as u64), swarm.spec_config().movement_sample_limit),
            spawned_count_total == sat_total(spawn_counts(ticks), um),
            movement_sample_count_total == sat_total(movement_fields(ticks, 0), um),
            applied_delta_count_total == sat_total(movement_fields(ticks, 1), um),
            physics_iterations_run_total == sat_total(movement_fields(ticks, 2), um),
            flow_field_cache_request_count_total == sat_total(movement_fields(ticks, 3), lm),
            flow_field_cache_hit_count_total == sat_total(movement_fields(ticks, 4), lm),
            flow_field_cache_eviction_count_total == sat_total(movement_fields(ticks, 5), lm),
            flow_field_cache_entry_count_max == seq_max(movement_fields(ticks, 6)),
        decreases SWARM_CONFIGURED_MOVEMENT_LOOP_TICK_COUNT - tick_offset + (if stopped { 0int } else { 1int }),
    {
        let tick = Tick(final_tick.0 + 1 + tick_offset);
        if !swarm.can_tick(tick) {
            stopped = true;
            continue;
        }
        let ghost pre = swarm;
        let report = swarm.tick_with_focus(tick, focus);
        proof {
            assert(focus_tick_facts(pre, swarm, report, tick, focus));
            let t0 = ticks;
            let s0 = states;
            ticks = ticks.push(report);
            states = states.push(swarm);
            assert(spawn_counts(ticks) =~= spawn_counts(t0).push(report.spawned_entity_ids@.len() as int));
            lemma_sat_total_push(spawn_counts(t0), report.spawned_entity_ids@.len() as int, um);
            assert forall|w: int| #[trigger] movement_fields(ticks, w) =~= movement_fields(t0, w).push(movement_field(report, w)) by {}
            assert forall|w: int, cap: int| #[trigger] sat_total(movement_fields(ticks, w), cap) == (if sat_total(movement_fields(t0, w), cap)
                + movement_field(report, w) <= cap {
                sat_total(movement_fields(t0, w), cap) + movement_field(report, w)
            } else {
                cap
            }) by {
                assert(movement_fields(ticks, w) =~= movement_fields(t0, w).push(movement_field(report, w)));
                lemma_sat_total_push(movement_fields(t0, w), movement_field(report, w), cap);
            }
            assert(movement_fields(ticks, 6) =~= movement_fields(t0, 6).push(movement_field(report, 6)));
            lemma_sat_total_push(movement_fields(t0, 6), movement_field(report, 6), um);
            assert forall|i: int|
                0 <= i < ticks.len() implies #[trigger] focus_tick_facts(
                states[i],
                states[i + 1],
                ticks[i],
                Tick((final_tick.0 + 1 + i) as u64),
                focus,
            ) by {
                if i < t0.len() {
                    assert(states[i] == s0[i] && states[i + 1] == s0[i + 1] && ticks[i] == t0[i]);
                }
            }
        }
        spawned_count_total = sat_add_usize(spawned_count_total, report.spawned_entity_ids.len());
        match &report.movement {
            Some(movement) => {
                movement_sample_count_total = sat_add_usize(movement_sample_count_total, movement.sample_count);
                applied_delta_count_total = sat_add_usize(applied_delta_count_total, movement.applied_delta_count);
                physics_iterations_run_total = sat_add_usize(physics_iterations_run_total, movement.physics_iterations_run);
                flow_field_cache_request_count_total = sat_add_u64(
                    flow_field_cache_request_count_total,
                    movement.flow_field_cache_request_count,
                );
                flow_field_cache_hit_count_total = sat_add_u64(flow_field_cache_hit_count_total, movement.flow_field_cache_hit_count);
                flow_field_cache_eviction_count_total = sat_add_u64(
                    flow_field_cache_eviction_count_total,
                    movement.flow_field_cache_eviction_count,
                );
                if movement.flow_field_cache_entry_count > flow_field_cache_entry_count_max {
                    flow_field_cache_entry_count_max = movement.flow_field_cache_entry_count;
                }
            },
            None => {},
        }
        tick_offset += 1;
    }
    let elapsed = elapsed_us(&started);
    let moved_entity_count = swarm.moved_entity_count(&start_entities);
    let r = SwarmConfiguredMovementLoopMeasurementRun {
        sample_count: 1,
        tick_count_per_sample: SWARM_CONFIGURED_MOVEMENT_LOOP_TICK_COUNT,
        movement_sample_limit: SWARM_CONFIGURED_MOVEMENT_LOOP_SAMPLE_COUNT,
        active_count: swarm.active_count(),
        spawned_count_total,
        elapsed_us_min: elapsed,
        elapsed_us_p50: elapsed,
        elapsed_us_p95: elapsed,
        elapsed_us_p99: elapsed,
        elapsed_us_max: elapsed,
        movement_sample_count_total,
        applied_delta_count_total,
        physics_iterations_run_total,
        flow_field_cache_request_count_total,
        flow_field_cache_hit_count_total,
        flow_field_cache_eviction_count_total,
        flow_field_cache_entry_count_max,
        moved_entity_count_min: moved_entity_count,
        budget_result: BudgetResult::Blocked,
        claim_scope: "local_measured_harness_only",
    };
    proof {
        assert(loop_sample_facts(states, ticks, r, final_tick, focus, movement_mode));
    }
    r
}

/// The smallest of a list of counts, `init` for none.
pub open spec fn seq_min_from(xs: Seq<int>, init: int) -> int
    decreases xs.len(),
{
    if xs.len() == 0 {
        init
    } else {
        let p = seq_min_from(xs.drop_last(), init);
        if xs.last() < p {
            xs.last()
        } else {
            p
        }
    }
}

/// A count of a loop sample: 0 the spawns, 1 the movement samples, 2 the applied moves, 3 the
/// physics rounds, 4 the cache requests, 5 the cache hits, 6 the evictions, 7 the largest
/// cache, otherwise the moved zombies.
pub open spec fn run_field(x: SwarmConfiguredMovementLoopMeasurementRun, which: int) -> int {
    if which == 0 {
        x.spawned_count_total as int
    } else if which == 1 {
        x.movement_sample_count_total as int
    } else if which == 2 {
        x.applied_delta_count_total as int
    } else if which == 3 {
        x.physics_iterations_run_total as int
    } else if which == 4 {
        x.flow_field_cache_request_count_total as int
    } else if which == 5 {
        x.flow_field_cache_hit_count_total as int
    } else if which == 6 {
        x.flow_field_cache_eviction_count_total as int
    } else if which == 7 {
        x.flow_field_cache_entry_count_max as int
    } else {
        x.moved_entity_count_min as int
    }
}

/// One count of each of a list of loop samples.
pub open spec fn run_fields(runs: Seq<SwarmConfiguredMovementLoopMeasurementRun>, which: int) -> Seq<int> {
    runs.map_values(|x: SwarmConfiguredMovementLoopMeasurementRun| run_field(x, which))
}

/// The elapsed times of a list of loop samples.
pub open spec fn run_elapsed(runs: Seq<SwarmConfiguredMovementLoopMeasurementRun>) -> Seq<u64> {
    runs.map_values(|x: SwarmConfiguredMovementLoopMeasurementRun| x.elapsed_us_min)
}

/// A loop sample in the given mode, as `run_configured_movement_loop_sample` runs it after
/// tick 249 with no focus.
pub open spec fn is_loop_sample(x: SwarmConfiguredMovementLoopMeasurementRun, movement_mode: SwarmMovementMode) -> bool {
    &&& x.sample_count == 1
    &&& x.elapsed_us_min >= 1
    &&& exists|states: Seq<SwarmState>, ticks: Seq<SwarmTickReport>|
        #[trigger] loop_sample_facts(states, ticks, x, Tick(249), WorldPosition { x_mm: 0, y_mm: 0 }, movement_mode)
}

/// A measurement summarises its samples `runs`: `sorted` holds their elapsed times in order;
/// the elapsed figures are its first, last and nearest-rank entries; the active count is the
/// last sample's; the counts are saturating totals over the samples, the cache figure their
/// largest and the moved figure their smallest.
pub open spec fn collected_facts(
    runs: Seq<SwarmConfiguredMovementLoopMeasurementRun>,
    sorted: Seq<u64>,
    r: SwarmConfiguredMovementLoopMeasurementRun,
    movement_mode: SwarmMovementMode,
) -> bool {
    let n = runs.len() as int;
    let um = usize::MAX as int;
    let lm = u64::MAX as int;
    &&& n >= 1
    &&& forall|i: int| 0 <= i < n ==> #[trigger] is_loop_sample(runs[i], movement_mode)
    &&& non_decreasing(sorted)
    &&& sorted.to_multiset() == run_elapsed(runs).to_multiset()
    &&& sorted.len() == n
    &&& r.elapsed_us_min == sorted[0]
    &&& r.elapsed_us_max == sorted[n - 1]
    &&& r.elapsed_us_p50 == sorted[nearest_rank_index(n, 50)]
    &&& r.elapsed_us_p95 == sorted[nearest_rank_index(n, 95)]
    &&& r.elapsed_us_p99 == sorted[nearest_rank_index(n, 99)]
    &&& r.active_count == runs.last().active_count
    &&& r.spawned_count_total == sat_total(run_fields(runs, 0), um)
    &&& r.movement_sample_count_total == sat_total(run_fields(runs, 1), um)
    &&& r.applied_delta_count_total == sat_total(run_fields(runs, 2), um)
    &&& r.physics_iterations_run_total == sat_total(run_fields(runs, 3), um)
    &&& r.flow_field_cache_request_count_total == sat_total(run_fields(runs, 4), lm)
    &&& r.flow_field_cache_hit_count_total == sat_total(run_fields(runs, 5), lm)
    &&& r.flow_field_cache_eviction_count_total == sat_total(run_fields(runs, 6), lm)
    &&& r.flow_field_cache_entry_count_max == seq_max(run_fields(runs, 7))
    &&& r.moved_entity_count_min == seq_min_from(run_fields(runs, 8), um)
}

/// A measurement of `sample_count` loop samples (at least one) in the given mode.
pub open spec fn measured(r: SwarmConfiguredMovementLoopMeasurementRun, sample_count: usize, movement_mode: SwarmMovementMode) -> bool {
    &&& measurement_shape(r, sample_count)
    &&& exists|runs: Seq<SwarmConfiguredMovementLoopMeasurementRun>, sorted: Seq<u64>|
        runs.len() == r.sample_count && #[trigger] collected_facts(runs, sorted, r, movement_mode)
}

/// What every movement loop measurement states: the sample count (at least 1), the loop's
/// constants, elapsed percentiles in order from the fastest sample to the slowest, and the
/// informational budget.
pub open spec fn measurement_shape(r: SwarmConfiguredMovementLoopMeasurementRun, sample_count: usize) -> bool {
    &&& r.sample_count == (if sample_count < 1 { 1 } else { sample_count })
    &&& r.tick_count_per_sample == SWARM_CONFIGURED_MOVEMENT_LOOP_TICK_COUNT
    &&& r.movement_sample_limit == SWARM_CONFIGURED_MOVEMENT_LOOP_SAMPLE_COUNT
    &&& 1 <= r.elapsed_us_min <= r.elapsed_us_p50 <= r.elapsed_us_p95 <= r.elapsed_us_p99 <= r.elapsed_us_max
    &&& r.budget_result == BudgetResult::Blocked
    &&& r.claim_scope@ == "local_measured_harness_only"@
}

/// Runs the configured movement loop `sample_count` times (at least once) and summarises the
/// samples: elapsed time percentiles by nearest rank, totals, the largest cache and the fewest
/// moved zombies.
fn collect_configured_movement_loop_measurement(sample_count: usize, movement_mode: SwarmMovementMode) -> (r:
    SwarmConfiguredMovementLoopMeasurementRun)
    requires
        movement_mode != SwarmMovementMode::SpawnOnly,
        sample_count <= usize::MAX / 100,
    ensures
        measured(r, sample_count, movement_mode),
{
    let sample_count = if sample_count < 1 { 1 } else { sample_count };
    let final_tick = Tick(249);
    let focus = WorldPosition { x_mm: 0, y_mm: 0 };
    let mut elapsed_samples: Vec<u64> = Vec::new();
    let mut active_count: usize = 0;
    let mut spawned_count_total: usize = 0;
    let mut movement_sample_count_total: usize = 0;
    let mut applied_delta_count_total: usize = 0;
    let mut physics_iterations_run_total: usize = 0;
    let mut flow_field_cache_request_count_total: u64 = 0;
    let mut flow_field_cache_hit_count_total: u64 = 0;
    let mut flow_field_cache_eviction_count_total: u64 = 0;
    let mut flow_field_cache_entry_count_max: usize = 0;
    let mut moved_entity_count_min: usize = usize::MAX;
    let mut k: usize = 0;
    let ghost mut runs: Seq<SwarmConfiguredMovementLoopMeasurementRun> = Seq::empty();
    let ghost um = usize::MAX as int;
    let ghost lm = u64::MAX as int;
    proof {
        assert(elapsed_samples@ =~= Seq::<u64>::empty());
        assert(run_elapsed(runs) =~= Seq::<u64>::empty());
    }
    while k < sample_count
        invariant
            um == usize::MAX as int,
            lm == u64::MAX as int,
            runs.len() == k,
            final_tick == Tick(249),
            focus == (WorldPosition { x_mm: 0, y_mm: 0 }),
            forall|i: int| 0 <= i < k ==> #[trigger] is_loop_sample(runs[i], movement_mode),
            elapsed_samples@.to_multiset() == run_elapsed(runs).to_multiset(),
            k > 0 ==> active_count == runs.last().active_count,
            spawned_count_total == sat_total(run_fields(runs, 0), um),
            movement_sample_count_total == sat_total(run_fields(runs, 1), um),
            applied_delta_count_total == sat_total(run_fields(runs, 2), um),
            physics_iterations_run_total == sat_total(run_fields(runs, 3), um),
            flow_field_cache_request_count_total == sat_total(run_fields(runs, 4), lm),
            flow_field_cache_hit_count_total == sat_total(run_fields(runs, 5), lm),
            flow_field_cache_eviction_count_total == sat_total(run_fields(runs, 6), lm),
            flow_field_cache_entry_count_max == seq_max(run_fields(runs, 7)),
            moved_entity_count_min == seq_min_from(run_fields(runs, 8), um),
            k <= sample_count,
            sample_count <= usize::MAX / 100,
            movement_mode != SwarmMovementMode::SpawnOnly,
            elapsed_samples@.len() == k,
            non_decreasing(elapsed_samples@),
            forall|j: int| 0 <= j < k ==> #[trigger] elapsed_samples@[j] >= 1,
            final_tick.0 == 249,
        decreases sample_count - k,
    {
        let sample = run_configured_movement_loop_sample(final_tick, focus, movement_mode);
        let ghost e0 = elapsed_samples@;
        insert_sorted(&mut elapsed_samples, sample.elapsed_us_min);
        proof {
            assert forall|j: int| 0 <= j < k + 1 implies #[trigger] elapsed_samples@[j] >= 1 by {
                let v = elapsed_samples@[j];
                assert(elapsed_samples@.to_multiset().count(v) > 0) by {
                    elapsed_samples@.to_multiset_ensures();
                    assert(elapsed_samples@.contains(v));
                }
                e0.to_multiset_ensures();
                if v != sample.elapsed_us_min {
                    assert(e0.to_multiset().count(v) > 0);
                    assert(e0.contains(v));
                }
            }
        }
        active_count = sample.active_count;
        spawned_count_total = sat_add_usize(spawned_count_total, sample.spawned_count_total);
        movement_sample_count_total = sat_add_usize(movement_sample_count_total, sample.movement_sample_count_total);
        applied_delta_count_total = sat_add_usize(applied_delta_count_total, sample.applied_delta_count_total);
        physics_iterations_run_total = sat_add_usize(physics_iterations_run_total, sample.physics_iterations_run_total);
        flow_field_cache_request_count_total = sat_add_u64(flow_field_cache_request_count_total, sample.flow_field_cache_request_count_total);
        flow_field_cache_hit_count_total = sat_add_u64(flow_field_cache_hit_count_total, sample.flow_field_cache_hit_count_total);
        flow_field_cache_eviction_count_total = sat_add_u64(flow_field_cache_eviction_count_total, sample.flow_field_cache_eviction_count_total);
        if sample.flow_field_cache_entry_count_max > flow_field_cache_entry_count_max {
            flow_field_cache_entry_count_max = sample.flow_field_cache_entry_count_max;
        }
        if sample.moved_entity_count_min < moved_entity_count_min {
            moved_entity_count_min = sample.moved_entity_count_min;
        }
        proof {
            let r0 = runs;
            runs = runs.push(sample);
            assert(is_loop_sample(sample, movement_mode));
            assert forall|i: int| 0 <= i < k + 1 implies #[trigger] is_loop_sample(runs[i], movement_mode) by {
                if i < k {
                    assert(runs[i] == r0[i]);
                }
            }
            assert(run_elapsed(runs) =~= run_elapsed(r0).push(sample.elapsed_us_min));
            run_elapsed(r0).to_multiset_ensures();
            assert forall|w: int, cap: int| #[trigger] sat_total(run_fields(runs, w), cap) == (if sat_total(run_fields(r0, w), cap)
                + run_field(sample, w) <= cap {
                sat_total(run_fields(r0, w), cap) + run_field(sample, w)
            } else {
                cap
            }) by {
                assert(run_fields(runs, w) =~= run_fields(r0, w).push(run_field(sample, w)));
                lemma_sat_total_push(run_fields(r0, w), run_field(sample, w), cap);
            }
            assert(run_fields(runs, 7) =~= run_fields(r0, 7).push(run_field(sample, 7)));
            lemma_sat_total_push(run_fields(r0, 7), run_field(sample, 7), um);
            assert(run_fields(runs, 8) =~= run_fields(r0, 8).push(run_field(sample, 8)));
            lemma_seq_min_push(run_fields(r0, 8), run_field(sample, 8), um);
        }
        k += 1;
    }
    let n = elapsed_samples.len();
    let p50 = percentile_nearest_rank(&elapsed_samples, 50);
    let p95 = percentile_nearest_rank(&elapsed_samples, 95);
    let p99 = percentile_nearest_rank(&elapsed_samples, 99);
    proof {
        let len = n as int;
        assert(0 <= nearest_rank_index(len, 50) <= nearest_rank_index(len, 95)) by (nonlinear_arith)
            requires len >= 1;
        assert(nearest_rank_index(len, 95) <= nearest_rank_index(len, 99)) by (nonlinear_arith)
            requires len >= 1;
        assert(nearest_rank_index(len, 99) <= len - 1);
    }
    let r = SwarmConfiguredMovementLoopMeasurementRun {
        sample_count,
        tick_count_per_sample: SWARM_CONFIGURED_MOVEMENT_LOOP_TICK_COUNT,
        movement_sample_limit: SWARM_CONFIGURED_MOVEMENT_LOOP_SAMPLE_COUNT,
        active_count,
        spawned_count_total,
        elapsed_us_min: elapsed_samples[0],
        elapsed_us_p50: p50,
        elapsed_us_p95: p95,
        elapsed_us_p99: p99,
        elapsed_us_max: elapsed_samples[n - 1],
        movement_sample_count_total,
        applied_delta_count_total,
        physics_iterations_run_total,
        flow_field_cache_request_count_total,
        flow_field_cache_hit_count_total,
        flow_field_cache_eviction_count_total,
        flow_field_cache_entry_count_max,
        moved_entity_count_min,
        budget_result: BudgetResult::Blocked,
        claim_scope: "local_measured_harness_only",
    };
    proof {
        assert(collected_facts(runs, elapsed_samples@, r, movement_mode));
    }
    r
}

/// The configured single-probe movement loop measured over `sample_count` samples.
pub fn run_swarm_configured_movement_loop_measurement(sample_count: usize) -> (r: SwarmConfiguredMovementLoopMeasurementRun)
    requires
        sample_count <= usize::MAX / 100,
    ensures
        measured(r, sample_count, SwarmMovementMode::FlowFieldCollision),
{
    collect_configured_movement_loop_measurement(sample_count, SwarmMovementMode::FlowFieldCollision)
}

/// The ratio of two elapsed times in basis points, capped at `u32::MAX`; 0 when the divisor is 0.
pub open spec fn elapsed_ratio_bps(numerator: u64, denominator: u64) -> int {
    if denominator == 0 {
        0
    } else if numerator * 10_000 / denominator as int > u32::MAX {
        u32::MAX as int
    } else {
        numerator * 10_000 / denominator as int
    }
}

/// A batch-versus-single comparison reports the single-probe measurement `single` and the
/// batch measurement `batch`: the active count of the single loop, each loop's elapsed
/// percentiles and totals, and the fewest moved zombies of each.
pub open spec fn comparison_of(
    r: SwarmBatchVsSingleMovementLoopMeasurementRun,
    single: SwarmConfiguredMovementLoopMeasurementRun,
    batch: SwarmConfiguredMovementLoopMeasurementRun,
) -> bool {
    &&& r.active_count == single.active_count
    &&& r.single_elapsed_us_p50 == single.elapsed_us_p50
    &&& r.single_elapsed_us_p95 == single.elapsed_us_p95
    &&& r.single_elapsed_us_p99 == single.elapsed_us_p99
    &&& r.batch_elapsed_us_p50 == batch.elapsed_us_p50
    &&& r.batch_elapsed_us_p95 == batch.elapsed_us_p95
    &&& r.batch_elapsed_us_p99 == batch.elapsed_us_p99
    &&& r.single_movement_sample_count_total == single.movement_sample_count_total
    &&& r.batch_movement_sample_count_total == batch.movement_sample_count_total
    &&& r.single_applied_delta_count_total == single.applied_delta_count_total
    &&& r.batch_applied_delta_count_total == batch.applied_delta_count_total
    &&& r.single_physics_iterations_run_total == single.physics_iterations_run_total
    &&& r.batch_physics_iterations_run_total == batch.physics_iterations_run_total
    &&& r.single_flow_field_cache_hit_count_total == single.flow_field_cache_hit_count_total
    &&& r.batch_flow_field_cache_hit_count_total == batch.flow_field_cache_hit_count_total
    &&& r.single_flow_field_cache_eviction_count_total == single.flow_field_cache_eviction_count_total
    &&& r.batch_flow_field_cache_eviction_count_total == batch.flow_field_cache_eviction_count_total
    &&& r.single_moved_entity_count_min == single.moved_entity_count_min
    &&& r.batch_moved_entity_count_min == batch.moved_entity_count_min
}

/// The single-probe and the batch movement loops measured over the same number of samples,
/// with the batch p95 as a share of the single p95.
pub fn run_swarm_batch_vs_single_movement_loop_measurement(sample_count: usize) -> (r: SwarmBatchVsSingleMovementLoopMeasurementRun)
    requires
        sample_count <= usize::MAX / 100,
    ensures
        r.sample_count == (if sample_count < 1 { 1 } else { sample_count }),
        r.tick_count_per_sample == SWARM_CONFIGURED_MOVEMENT_LOOP_TICK_COUNT,
        r.movement_sample_limit == SWARM_CONFIGURED_MOVEMENT_LOOP_SAMPLE_COUNT,
        1 <= r.single_elapsed_us_p50 <= r.single_elapsed_us_p95 <= r.single_elapsed_us_p99,
        1 <= r.batch_elapsed_us_p50 <= r.batch_elapsed_us_p95 <= r.batch_elapsed_us_p99,
        r.batch_to_single_elapsed_p95_bps == elapsed_ratio_bps(r.batch_elapsed_us_p95, r.single_elapsed_us_p95),
        r.budget_result == BudgetResult::Blocked,
        r.claim_scope@ == "local_batch_vs_single_measured_harness_only"@,
        exists|single: SwarmConfiguredMovementLoopMeasurementRun, batch: SwarmConfiguredMovementLoopMeasurementRun|
            #[trigger] comparison_of(r, single, batch) && measured(single, sample_count, SwarmMovementMode::FlowFieldCollision)
                && measured(batch, sample_count, SwarmMovementMode::BatchFlowFieldCollision),
{
    let requested = sample_count;
    let sample_count = if sample_count < 1 { 1 } else { sample_count };
    let single = collect_configured_movement_loop_measurement(sample_count, SwarmMovementMode::FlowFieldCollision);
    let batch = collect_configured_movement_loop_measurement(sample_count, SwarmMovementMode::BatchFlowFieldCollision);
    let batch_to_single_elapsed_p95_bps: u32 = if single.elapsed_us_p95 == 0 {
        0
    } else {
        let ratio: u128 = (batch.elapsed_us_p95 as u128 * 10_000) / single.elapsed_us_p95 as u128;
        if ratio > u32::MAX as u128 { u32::MAX } else { ratio as u32 }
    };
    let r = SwarmBatchVsSingleMovementLoopMeasurementRun {
        sample_count,
        tick_count_per_sample: SWARM_CONFIGURED_MOVEMENT_LOOP_TICK_COUNT,
        movement_sample_limit: SWARM_CONFIGURED_MOVEMENT_LOOP_SAMPLE_COUNT,
        active_count: single.active_count,
        single_elapsed_us_p50: single.elapsed_us_p50,
        single_elapsed_us_p95: single.elapsed_us_p95,
        single_elapsed_us_p99: single.elapsed_us_p99,
        batch_elapsed_us_p50: batch.elapsed_us_p50,
        batch_elapsed_us_p95: batch.elapsed_us_p95,
        batch_elapsed_us_p99: batch.elapsed_us_p99,
        batch_to_single_elapsed_p95_bps,
        single_movement_sample_count_total: single.movement_sample_count_total,
        batch_movement_sample_count_total: batch.movement_sample_count_total,
        single_applied_delta_count_total: single.applied_delta_count_total,
        batch_applied_delta_count_total: batch.applied_delta_count_total,
        single_physics_iterations_run_total: single.physics_iterations_run_total,
        batch_physics_iterations_run_total: batch.physics_iterations_run_total,
        single_flow_field_cache_hit_count_total: single.flow_field_cache_hit_count_total,
        batch_flow_field_cache_hit_count_total: batch.flow_field_cache_hit_count_total,
        single_flow_field_cache_eviction_count_total: single.flow_field_cache_eviction_count_total,
        batch_flow_field_cache_eviction_count_total: batch.flow_field_cache_eviction_count_total,
        single_moved_entity_count_min: single.moved_entity_count_min,
        batch_moved_entity_count_min: batch.moved_entity_count_min,
        budget_result: BudgetResult::Blocked,
        claim_scope: "local_batch_vs_single_measured_harness_only",
    };
    proof {
        assert(measurement_shape(single, requested));
        assert(measured(single, requested, SwarmMovementMode::FlowFieldCollision));
        assert(measured(batch, requested, SwarmMovementMode::BatchFlowFieldCollision));
        assert(comparison_of(r, single, batch));
    }
    r
}


impl SwarmState {
    /// The request statistics of the swarm's flow-field cache.
    pub fn flow_field_cache_stats(&self) -> (r: SwarmFlowFieldCacheStats)
        ensures
            r.request_count == self.spec_cache_requests(),
            r == self.spec_cache().spec_stats(),
    {
        self.flow_field_cache.stats()
    }

    /// How many cells block the flow fields of a movement step over the first `sample_limit`
    /// zombies: the static obstacles' cells, grown by the collision radius, inside the step's
    /// flow-field bounds.
    pub fn movement_blocker_cell_count(&self, tick: Tick, focus: WorldPosition, sample_limit: usize, cell_size_mm: i32) -> (r:
        usize)
        requires
            self.wf(),
        ensures
            ({
                let cs = step_cell_size(cell_size_mm);
                let fb = movement_flow_bounds(step_behaviors(*self, tick, focus, sample_limit), self.spec_active(), cs);
                r == blocker_cells(self.spec_obstacle_shapes(), self.spec_obstacles(), cs, fb, self.spec_config().collision_radius_mm).len()
            }),
    {
        let cell_size_mm = if cell_size_mm < 1 { 1 } else { cell_size_mm };
        let behaviors = self.movement_behaviors(tick, focus, sample_limit);
        let flow_bounds = swarm_preview_flow_bounds(&behaviors, &self.active_entities, cell_size_mm);
        let blockers = self.static_obstacle_blocker_cells(cell_size_mm, flow_bounds, self.config.collision_radius_mm);
        proof {
            assert(behaviors@ =~= step_behaviors(*self, tick, focus, sample_limit));
            let set = blocker_cells(self.spec_obstacle_shapes(), self.spec_obstacles(), cell_size_mm, flow_bounds, self.spec_config().collision_radius_mm);
            let cells = blockers.1@;
            assert forall|a: int, b: int| 0 <= a < cells.len() && 0 <= b < cells.len() && a != b implies cells[a] != cells[b] by {
                assert(blockers.0@[a] == cell_key(cells[a]));
                assert(blockers.0@[b] == cell_key(cells[b]));
                if a < b {
                    assert(blockers.0@[a] < blockers.0@[b]);
                } else {
                    assert(blockers.0@[b] < blockers.0@[a]);
                }
            }
            assert(cells.no_duplicates());
            cells.unique_seq_to_set();
            assert(cells.to_set() =~= set);
        }
        blockers.1.len()
    }
}


/// `k` spawns add at most `k` zombies, and keep the spawning state well formed.
pub proof fn lemma_spawns_add_at_most(config: SwarmConfig, points: Seq<SwarmSpawnPoint>, st: SpawnState, tick: Tick, k: nat)
    requires
        spawn_state_ok(config, points, st),
    ensures
        spawn_state_ok(config, points, spawn_many(config, points, st, tick, k)),
        spawn_many(config, points, st, tick, k).0.len() <= st.0.len() + k,
    decreases k,
{
    if k > 0 {
        lemma_spawns_add_at_most(config, points, st, tick, (k - 1) as nat);
        lemma_spawn_step_ok(config, points, spawn_many(config, points, st, tick, (k - 1) as nat), tick);
    }
}

/// A tick's spawning never takes the swarm above its active cap.
pub proof fn lemma_tick_respects_max_active(before: SwarmState, after: SwarmState, tick: Tick, spawned: Seq<EntityId>)
    requires
        before.wf(),
        spawn_facts(before, after, tick, spawned),
        before.spec_active().len() <= before.spec_config().max_active,
    ensures
        after.spec_active().len() <= after.spec_config().max_active,
{
    let k = spawn_count(before.spec_config(), before.spec_active().len(), tick);
    lemma_spawns_add_at_most(before.spec_config(), before.spec_spawn_points(), before.spawn_view(), tick, k);
}

/// The flow-field cache never holds more entries than its limit, holds each key once (in
/// increasing order), counts every request as a hit or a build, and evicts only what it built.
pub proof fn lemma_cache_bounded(cache: SwarmFlowFieldCache)
    requires
        cache.wf(),
    ensures
        cache.spec_keys().len() <= SWARM_FLOW_FIELD_CACHE_ENTRY_LIMIT,
        swarm_keys_sorted(cache.spec_keys()),
        cache.spec_stats().hit_count + cache.spec_stats().build_count == cache.spec_stats().request_count,
        cache.spec_stats().eviction_count <= cache.spec_stats().build_count,
{
}

} // verus!
