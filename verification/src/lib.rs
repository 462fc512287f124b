pub mod arith;
pub mod simulation;
pub mod sorted;
pub mod protocol;
pub mod transport;
pub mod reconnect;
pub mod hardening;
pub mod load_shed;
pub mod reliability;
pub mod determinism;
pub mod replay;
pub mod observability;
pub mod soak_metrics;
pub mod perf_budget;
pub mod faction_scale;
pub mod collision;
pub mod movement_scale;
pub mod interest;
pub mod map_data;
pub mod game_core;
pub mod steam_bridge;
pub mod build_info;
pub mod metrics;
pub mod simulation_scale;
pub mod cover;
pub mod swarm;
pub mod perf_history;

pub use build_info::{BuildEvidence, REPLAY_FORMAT_VERSION};
pub use collision::{collision_perf_scenarios, run_collision_perf_smoke, CollisionAdmission, CollisionAdmissionResult, CollisionBatchMovementCandidate, CollisionBatchMovementProbeReport, CollisionBatchMovementSample, CollisionBody, CollisionBodyKind, CollisionContact, CollisionCorrection, CollisionError, CollisionMovementDecision, CollisionMovementProbe, CollisionPerfRun, CollisionPerfScenario, CollisionPerfScenarioId, CollisionPhysicsStep, CollisionProbe, CollisionResolutionPlan, CollisionResolvedAdmission, CollisionResolvedAdmissionResult, CollisionWorld, COLLISION_SCHEMA};
pub use cover::{AxisAlignedVolume, CoverCombatMap, CoverCombatPerfRun, CoverError, CoverObject, CoverOccupancy, LineQuery, TargetingQuery, TargetingResult, COVER_SCHEMA};
pub use determinism::{derive_simulation_seed, DeterministicInput, DeterministicInputFrame, SimulationSeed};
pub use faction_scale::{faction_scale_scenarios, FactionScaleScenario, FactionScaleScenarioId, RoleMixCounts};
pub use game_core::{AcceptedMoveIntent, GCoreCommandError, GCoreState, MoveIntent, PlayerStart, SpawnedSquad, BASIC_SQUAD_ENTITY_KIND, BASIC_SQUAD_MEMBER_COUNT, GCORE_SCHEMA, HQ_ENTITY_KIND};
pub use hardening::{evaluate_auth_state, evaluate_command_freshness, validate_header_payload_limits, validate_packet_bounds, AuthCheckState, CommandFreshness, ProtocolHardeningAction, ProtocolHardeningDecision, ProtocolHardeningLimits, ProtocolRejectReason, MAX_CLIENT_COMMAND_BATCH_BYTES, MAX_PACKET_BYTES, MAX_PAYLOAD_BYTES, MAX_REDACTED_DIAGNOSTIC_BYTES};
pub use interest::{aggregate_far_state, build_interest_snapshot_delta, build_visible_delta_snapshot, visible_entities_for_region, AggregateFarState, AoiRegion, ClientInterestState, InterestManager, InterestSnapshotDelta, InterestUpdate};
pub use load_shed::{apply_slow_client_policy, evaluate_load_shed, ClientLoadSample, CommandAdmission, LoadShedAction, LoadShedDecision, LoadShedLimits, LoadShedReason, SlowClientPolicyDecision, SnapshotDegradeMode};
pub use map_data::{map_data_fixture_checksum, validate_map_data_import, CapturePoint, MapBounds, MapDataImport, MapDataValidationError, MapPoint, MapShape, MapShapeKind, SpawnPoint, MAP_DATA_FIXTURE_CHECKSUM_ALGORITHM, MAP_DATA_SCHEMA, MAX_MAP_EXTENT_MM, MAX_MAP_MARKERS_PER_KIND, MIN_MAP_EXTENT_MM};
pub use metrics::{estimate_snapshot_bytes, SNAPSHOT_ENTITY_BYTES, SNAPSHOT_HEADER_BYTES, SNAPSHOT_REMOVED_ENTITY_BYTES};
pub use movement_scale::{movement_scale_scenarios, run_movement_scale_scenario, FlowFieldBounds, FlowFieldCache, FlowFieldCacheStats, FlowFieldError, FlowFieldMap, FlowFieldRequest, FlowFieldStep, FlowFieldStepResult, MovementOptionFamily, MovementScaleRun, MovementScaleScenario, MovementScaleScenarioId, MAPDATA_V0_LOCAL_FIXTURE_CHECKSUM};
pub use observability::{CounterSample, ObservabilityCounter, ObservabilityCounters};
pub use perf_budget::{BudgetResult, ServerPerfScenario};
pub use perf_history::{build_ledger_id, PerfHistoryBudgetResult, PerfHistoryClaimScope, PerfHistoryRedactionStatus, PerfHistoryScenarioFamily, PerfHistoryStatus};
pub use protocol::{synthetic_session_id, MessageType, PacketDecodeError, PacketHeader, PROTOCOL_HEADER_LEN, PROTOCOL_HEADER_LEN_U16, PROTOCOL_MAGIC, PROTOCOL_VERSION};
pub use reconnect::{RebindResult, SessionConnectionState, SessionRebindState, SnapshotResumeAction, DEFAULT_RECONNECT_GRACE_TICKS};
pub use reliability::{ClientSequenceResult, CommandId, CommandIdempotencyResult, CommandReliabilityState, PendingReliablePacket};
pub use replay::{RecordedCommandStream, ReplayReport};
pub use simulation::{EntityColumns, EntityId, EntityState, MovementDelta, PlayerSessionId, Snapshot, SnapshotBuilder, SpatialCell, SpatialGrid, Tick, TickConfig, TickLoop, WorldPosition, SERVER_TICK_HZ, SERVER_TICK_MILLIS};
pub use simulation_scale::{run_simulation_scale_scenario, simulation_scale_scenarios, SimulationScaleRun, SimulationScaleScenario, SimulationScaleScenarioId};
pub use soak_metrics::{SoakMetric, SoakMetricSample, SoakMetrics};
pub use steam_bridge::{accept_local_mock_handoff, validate_local_mock_handoff, AcceptedSteamBridgeSession, SteamBridgeError, SteamBridgeHandoff, LOCAL_DIRECT_SERVER_MODE, LOCAL_MOCK_IDENTITY_MODE, STEAM_BRIDGE_PROTOCOL, STEAM_BRIDGE_SCHEMA};
pub use swarm::{run_swarm_batch_vs_single_movement_loop_measurement, run_swarm_configured_movement_loop_measurement, AggroStimulus, AggroTrailLane, AggroTrailSample, RoutePressureSample, SwarmAiLod, SwarmAiLodCounts, SwarmBatchVsSingleMovementLoopMeasurementRun, SwarmBehaviorReport, SwarmBehaviorSample, SwarmConfig, SwarmConfiguredMovementLoopMeasurementRun, SwarmEntity, SwarmError, SwarmIntentKind, SwarmMovementApplyReport, SwarmMovementApplySample, SwarmMovementDeltaSnapshotReport, SwarmMovementMode, SwarmMovementPreviewReport, SwarmMovementPreviewSample, SwarmMovementTickReport, SwarmSpawnPoint, SwarmState, SwarmTickReport, SWARM_ENTITY_KIND, SWARM_SCHEMA};
