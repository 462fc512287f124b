use millions_server::collision::{
    collision_perf_scenarios, run_collision_perf_smoke, CollisionAdmission, CollisionAdmissionResult,
    CollisionBatchMovementCandidate, CollisionBody, CollisionBodyKind, CollisionContact, CollisionCorrection,
    CollisionError, CollisionMovementDecision, CollisionPerfScenarioId, CollisionPhysicsStep,
    CollisionResolutionPlan, CollisionResolvedAdmission, CollisionResolvedAdmissionResult, CollisionSlideAxis,
    CollisionWorld, COLLISION_STABILITY_CLAMP_LIMIT_ABS_MM,
};
use millions_server::simulation::{EntityId, MovementDelta, WorldPosition};

fn collision_body(entity_id: u64, x_mm: i32, y_mm: i32, radius_mm: i32) -> CollisionBody {
    CollisionBody {
        entity_id: EntityId(entity_id),
        kind: CollisionBodyKind::Swarm,
        position: WorldPosition { x_mm, y_mm },
        radius_mm,
    }
}

fn collision_static_body(entity_id: u64, x_mm: i32, y_mm: i32, radius_mm: i32) -> CollisionBody {
    CollisionBody {
        entity_id: EntityId(entity_id),
        kind: CollisionBodyKind::StaticObstacle,
        position: WorldPosition { x_mm, y_mm },
        radius_mm,
    }
}

#[test]
fn collision_world_rejects_invalid_grid_or_body_radius() {
    assert_eq!(
        CollisionWorld::new(0).unwrap_err(),
        CollisionError::InvalidCellSize
    );

    let mut world = CollisionWorld::new(1_000).expect("valid world");
    assert_eq!(
        world.insert_or_update(collision_body(1, 0, 0, 0)).unwrap_err(),
        CollisionError::InvalidRadius
    );
}

#[test]
fn collision_world_detects_deterministic_broad_phase_overlaps() {
    let world = CollisionWorld::with_bodies(
        1_000,
        vec![
            collision_body(10, 0, 0, 600),
            collision_body(11, 900, 0, 600),
            collision_body(12, 3_000, 0, 600),
            collision_body(13, -900, 0, 600),
        ],
    )
    .expect("valid world");

    assert_eq!(world.body_count(), 4);
    assert_eq!(world.cell_size_mm(), 1_000);
    assert_eq!(
        world.detect_overlaps(),
        vec![
            CollisionContact {
                a: EntityId(10),
                b: EntityId(11),
                distance_sq_mm: 810_000,
                min_distance_mm: 1_200,
                overlap_mm: 300,
            },
            CollisionContact {
                a: EntityId(10),
                b: EntityId(13),
                distance_sq_mm: 810_000,
                min_distance_mm: 1_200,
                overlap_mm: 300,
            },
        ]
    );
}

#[test]
fn collision_probe_returns_sorted_overlapping_entity_ids() {
    let world = CollisionWorld::with_bodies(
        1_000,
        vec![
            collision_body(2, 1_500, 0, 400),
            collision_body(1, 0, 0, 400),
            collision_body(3, 4_000, 0, 400),
        ],
    )
    .expect("valid world");

    let probe = world
        .probe_circle(WorldPosition { x_mm: 700, y_mm: 0 }, 500)
        .expect("valid probe");

    assert_eq!(probe.overlapping_entity_ids, vec![EntityId(1), EntityId(2)]);
}

#[test]
fn collision_admission_accepts_clear_position_and_ignores_self() {
    let world =
        CollisionWorld::with_bodies(1_000, vec![collision_body(1, 0, 0, 400), collision_body(2, 2_000, 0, 400)])
            .expect("valid world");

    let stay = world.admit_body_position(EntityId(1), WorldPosition { x_mm: 0, y_mm: 0 });
    assert_eq!(
        stay,
        CollisionAdmission {
            entity_id: EntityId(1),
            from: Some(WorldPosition { x_mm: 0, y_mm: 0 }),
            to: WorldPosition { x_mm: 0, y_mm: 0 },
            radius_mm: 400,
            result: CollisionAdmissionResult::Accepted,
            blocking_entity_ids: Vec::new(),
        }
    );

    let clear = world.admit_body_position(
        EntityId(1),
        WorldPosition {
            x_mm: -2_000,
            y_mm: 0,
        },
    );
    assert_eq!(clear.result, CollisionAdmissionResult::Accepted);
    assert!(clear.blocking_entity_ids.is_empty());
}

#[test]
fn collision_admission_rejects_overlap_at_target_position() {
    let world = CollisionWorld::with_bodies(
        1_000,
        vec![
            collision_body(1, 0, 0, 500),
            collision_body(2, 1_200, 0, 500),
            collision_body(3, 4_000, 0, 500),
        ],
    )
    .expect("valid world");

    let admission =
        world.admit_body_position(EntityId(1), WorldPosition { x_mm: 800, y_mm: 0 });

    assert_eq!(admission.result, CollisionAdmissionResult::RejectedOverlap);
    assert_eq!(admission.blocking_entity_ids, vec![EntityId(2)]);
    assert_eq!(admission.from, Some(WorldPosition { x_mm: 0, y_mm: 0 }));
}

#[test]
fn collision_admission_reports_unknown_body_without_panic() {
    let world =
        CollisionWorld::with_bodies(1_000, vec![collision_body(1, 0, 0, 500)]).expect("valid world");

    let admission = world.admit_body_position(EntityId(99), WorldPosition { x_mm: 0, y_mm: 0 });

    assert_eq!(
        admission,
        CollisionAdmission {
            entity_id: EntityId(99),
            from: None,
            to: WorldPosition { x_mm: 0, y_mm: 0 },
            radius_mm: 0,
            result: CollisionAdmissionResult::UnknownBody,
            blocking_entity_ids: Vec::new(),
        }
    );
}

#[test]
fn collision_resolved_admission_accepts_clear_position_without_iterations() {
    let world =
        CollisionWorld::with_bodies(1_000, vec![collision_body(1, 0, 0, 400), collision_body(2, 2_000, 0, 400)])
            .expect("valid world");

    let admission = world.admit_body_position_after_resolution(
        EntityId(1),
        WorldPosition {
            x_mm: -2_000,
            y_mm: 0,
        },
        2,
    );

    assert_eq!(
        admission,
        CollisionResolvedAdmission {
            entity_id: EntityId(1),
            requested_position: WorldPosition {
                x_mm: -2_000,
                y_mm: 0,
            },
            resolved_position: Some(WorldPosition {
                x_mm: -2_000,
                y_mm: 0,
            }),
            initial_result: CollisionAdmissionResult::Accepted,
            initial_blocking_entity_ids: Vec::new(),
            result: CollisionResolvedAdmissionResult::Accepted,
            blocking_entity_ids: Vec::new(),
            iterations_requested: 2,
            iterations_run: 0,
            applied_correction_count: 0,
            applied_correction_abs_mm_total: 0,
            max_applied_correction_abs_mm: 0,
            correction_limit_abs_mm: None,
            clamped_correction_count: 0,
            final_contact_count: 0,
            claim_scope: "resolved_admission_only",
        }
    );
}

#[test]
fn collision_resolved_admission_accepts_after_bounded_local_resolution() {
    let world =
        CollisionWorld::with_bodies(1_000, vec![collision_body(1, 0, 0, 500), collision_body(2, 1_200, 0, 500)])
            .expect("valid world");

    let admission = world.admit_body_position_after_resolution(
        EntityId(1),
        WorldPosition { x_mm: 800, y_mm: 0 },
        1,
    );

    assert_eq!(admission.entity_id, EntityId(1));
    assert_eq!(
        admission.initial_result,
        CollisionAdmissionResult::RejectedOverlap
    );
    assert_eq!(admission.initial_blocking_entity_ids, vec![EntityId(2)]);
    assert_eq!(
        admission.result,
        CollisionResolvedAdmissionResult::AcceptedAfterResolution
    );
    assert_eq!(
        admission.resolved_position,
        Some(WorldPosition { x_mm: 500, y_mm: 0 })
    );
    assert!(admission.blocking_entity_ids.is_empty());
    assert_eq!(admission.iterations_requested, 1);
    assert_eq!(admission.iterations_run, 1);
    assert_eq!(admission.applied_correction_count, 2);
    assert_eq!(admission.applied_correction_abs_mm_total, 601);
    assert_eq!(admission.max_applied_correction_abs_mm, 301);
    assert_eq!(admission.correction_limit_abs_mm, None);
    assert_eq!(admission.clamped_correction_count, 0);
    assert_eq!(admission.final_contact_count, 0);
    assert_eq!(admission.claim_scope, "resolved_admission_only");
}

#[test]
fn collision_resolved_admission_can_clamp_local_resolution() {
    let world =
        CollisionWorld::with_bodies(1_000, vec![collision_body(1, 0, 0, 500), collision_body(2, 1_200, 0, 500)])
            .expect("valid world");

    let admission = world.admit_body_position_after_resolution_with_correction_limit(
        EntityId(1),
        WorldPosition { x_mm: 800, y_mm: 0 },
        1,
        50,
    );

    assert_eq!(
        admission.initial_result,
        CollisionAdmissionResult::RejectedOverlap
    );
    assert_eq!(admission.initial_blocking_entity_ids, vec![EntityId(2)]);
    assert_eq!(
        admission.result,
        CollisionResolvedAdmissionResult::RejectedStillOverlapping
    );
    assert_eq!(
        admission.resolved_position,
        Some(WorldPosition { x_mm: 750, y_mm: 0 })
    );
    assert_eq!(admission.blocking_entity_ids, vec![EntityId(2)]);
    assert_eq!(admission.iterations_requested, 1);
    assert_eq!(admission.iterations_run, 1);
    assert_eq!(admission.applied_correction_count, 2);
    assert_eq!(admission.applied_correction_abs_mm_total, 100);
    assert_eq!(admission.max_applied_correction_abs_mm, 50);
    assert_eq!(admission.correction_limit_abs_mm, Some(50));
    assert_eq!(admission.clamped_correction_count, 2);
    assert_eq!(admission.final_contact_count, 1);
}

#[test]
fn collision_resolved_admission_rejects_when_iteration_budget_cannot_resolve() {
    let world =
        CollisionWorld::with_bodies(1_000, vec![collision_body(1, 0, 0, 500), collision_body(2, 1_200, 0, 500)])
            .expect("valid world");

    let admission = world.admit_body_position_after_resolution(
        EntityId(1),
        WorldPosition { x_mm: 800, y_mm: 0 },
        0,
    );

    assert_eq!(
        admission.initial_result,
        CollisionAdmissionResult::RejectedOverlap
    );
    assert_eq!(admission.initial_blocking_entity_ids, vec![EntityId(2)]);
    assert_eq!(
        admission.result,
        CollisionResolvedAdmissionResult::RejectedStillOverlapping
    );
    assert_eq!(
        admission.resolved_position,
        Some(WorldPosition { x_mm: 800, y_mm: 0 })
    );
    assert_eq!(admission.blocking_entity_ids, vec![EntityId(2)]);
    assert_eq!(admission.iterations_requested, 0);
    assert_eq!(admission.iterations_run, 0);
    assert_eq!(admission.applied_correction_count, 0);
    assert_eq!(admission.applied_correction_abs_mm_total, 0);
    assert_eq!(admission.max_applied_correction_abs_mm, 0);
    assert_eq!(admission.correction_limit_abs_mm, None);
    assert_eq!(admission.clamped_correction_count, 0);
    assert_eq!(admission.final_contact_count, 1);
}

#[test]
fn collision_resolved_admission_reports_unknown_body_without_iterations() {
    let world =
        CollisionWorld::with_bodies(1_000, vec![collision_body(1, 0, 0, 500)]).expect("valid world");

    let admission = world.admit_body_position_after_resolution(
        EntityId(99),
        WorldPosition { x_mm: 0, y_mm: 0 },
        2,
    );

    assert_eq!(admission.entity_id, EntityId(99));
    assert_eq!(admission.resolved_position, None);
    assert_eq!(
        admission.initial_result,
        CollisionAdmissionResult::UnknownBody
    );
    assert!(admission.initial_blocking_entity_ids.is_empty());
    assert_eq!(
        admission.result,
        CollisionResolvedAdmissionResult::UnknownBody
    );
    assert_eq!(admission.iterations_run, 0);
    assert_eq!(admission.applied_correction_count, 0);
    assert_eq!(admission.applied_correction_abs_mm_total, 0);
    assert_eq!(admission.max_applied_correction_abs_mm, 0);
    assert_eq!(admission.correction_limit_abs_mm, None);
    assert_eq!(admission.clamped_correction_count, 0);
    assert_eq!(admission.claim_scope, "resolved_admission_only");
}

#[test]
fn collision_movement_probe_reports_corrected_candidate_delta() {
    let world =
        CollisionWorld::with_bodies(1_000, vec![collision_body(1, 0, 0, 500), collision_body(2, 1_200, 0, 500)])
            .expect("valid world");

    let probe = world.probe_movement_after_resolution(
        EntityId(1),
        WorldPosition { x_mm: 800, y_mm: 0 },
        1,
    );

    assert_eq!(probe.entity_id, EntityId(1));
    assert_eq!(probe.from, Some(WorldPosition { x_mm: 0, y_mm: 0 }));
    assert_eq!(
        probe.requested_position,
        WorldPosition { x_mm: 800, y_mm: 0 }
    );
    assert_eq!(
        probe.resolved_position,
        Some(WorldPosition { x_mm: 500, y_mm: 0 })
    );
    assert_eq!(
        probe.requested_delta,
        Some(MovementDelta {
            dx_mm: 800,
            dy_mm: 0
        })
    );
    assert_eq!(
        probe.resolved_delta,
        Some(MovementDelta {
            dx_mm: 500,
            dy_mm: 0
        })
    );
    assert_eq!(
        probe.initial_result,
        CollisionAdmissionResult::RejectedOverlap
    );
    assert_eq!(
        probe.resolved_result,
        CollisionResolvedAdmissionResult::AcceptedAfterResolution
    );
    assert_eq!(probe.decision, CollisionMovementDecision::Corrected);
    assert_eq!(probe.initial_blocking_entity_ids, vec![EntityId(2)]);
    assert!(probe.blocking_entity_ids.is_empty());
    assert_eq!(probe.iterations_run, 1);
    assert_eq!(probe.applied_correction_count, 2);
    assert_eq!(probe.applied_correction_abs_mm_total, 601);
    assert_eq!(probe.max_applied_correction_abs_mm, 301);
    assert_eq!(probe.correction_limit_abs_mm, None);
    assert_eq!(probe.clamped_correction_count, 0);
    assert_eq!(probe.final_contact_count, 0);
    assert_eq!(probe.claim_scope, "movement_probe_only");
}

#[test]
fn collision_movement_probe_can_clamp_local_resolution() {
    let world =
        CollisionWorld::with_bodies(1_000, vec![collision_body(1, 0, 0, 500), collision_body(2, 1_200, 0, 500)])
            .expect("valid world");

    let probe = world.probe_movement_after_resolution_with_correction_limit(
        EntityId(1),
        WorldPosition { x_mm: 800, y_mm: 0 },
        1,
        50,
    );

    assert_eq!(probe.decision, CollisionMovementDecision::Blocked);
    assert_eq!(
        probe.resolved_result,
        CollisionResolvedAdmissionResult::RejectedStillOverlapping
    );
    assert_eq!(
        probe.resolved_position,
        Some(WorldPosition { x_mm: 750, y_mm: 0 })
    );
    assert_eq!(
        probe.resolved_delta,
        Some(MovementDelta {
            dx_mm: 750,
            dy_mm: 0
        })
    );
    assert_eq!(probe.blocking_entity_ids, vec![EntityId(2)]);
    assert_eq!(probe.applied_correction_abs_mm_total, 100);
    assert_eq!(probe.max_applied_correction_abs_mm, 50);
    assert_eq!(probe.correction_limit_abs_mm, Some(50));
    assert_eq!(probe.clamped_correction_count, 2);
}

#[test]
fn collision_axis_slide_probe_accepts_axis_candidate_when_direct_move_blocks() {
    let world =
        CollisionWorld::with_bodies(1_000, vec![collision_body(1, 0, 0, 300), collision_body(2, 800, 800, 300)])
            .expect("valid world");

    let probe = world.probe_movement_with_axis_slide_after_resolution(
        EntityId(1),
        WorldPosition {
            x_mm: 800,
            y_mm: 800,
        },
        0,
    );

    assert_eq!(probe.entity_id, EntityId(1));
    assert_eq!(
        probe.requested_probe.decision,
        CollisionMovementDecision::Blocked
    );
    assert_eq!(probe.decision, CollisionMovementDecision::Accepted);
    assert_eq!(probe.selected_axis, Some(CollisionSlideAxis::X));
    assert_eq!(
        probe.selected_position,
        Some(WorldPosition { x_mm: 800, y_mm: 0 })
    );
    assert_eq!(
        probe.selected_delta,
        Some(MovementDelta {
            dx_mm: 800,
            dy_mm: 0
        })
    );
    assert_eq!(probe.attempt_count, 1);
    assert_eq!(probe.attempts[0].axis, CollisionSlideAxis::X);
    assert_eq!(
        probe.attempts[0].probe.requested_position,
        WorldPosition { x_mm: 800, y_mm: 0 }
    );
    assert_eq!(probe.claim_scope, "axis_slide_probe_only");
}

#[test]
fn collision_axis_slide_probe_skips_attempts_when_direct_move_is_accepted() {
    let world =
        CollisionWorld::with_bodies(1_000, vec![collision_body(1, 0, 0, 300), collision_body(2, 2_000, 0, 300)])
            .expect("valid world");

    let probe = world.probe_movement_with_axis_slide_after_resolution(
        EntityId(1),
        WorldPosition { x_mm: 800, y_mm: 0 },
        0,
    );

    assert_eq!(
        probe.requested_probe.decision,
        CollisionMovementDecision::Accepted
    );
    assert_eq!(probe.decision, CollisionMovementDecision::Accepted);
    assert_eq!(probe.selected_axis, None);
    assert_eq!(
        probe.selected_position,
        Some(WorldPosition { x_mm: 800, y_mm: 0 })
    );
    assert_eq!(probe.attempt_count, 0);
    assert!(probe.attempts.is_empty());
}

#[test]
fn collision_axis_slide_probe_carries_correction_limit_into_slide_attempts() {
    let world =
        CollisionWorld::with_bodies(1_000, vec![collision_body(1, 0, 0, 500), collision_body(2, 800, 800, 500)])
            .expect("valid world");

    let probe = world.probe_movement_with_axis_slide_after_resolution_with_correction_limit(
        EntityId(1),
        WorldPosition {
            x_mm: 800,
            y_mm: 800,
        },
        1,
        50,
    );

    assert_eq!(probe.requested_probe.correction_limit_abs_mm, Some(50));
    assert_eq!(probe.decision, CollisionMovementDecision::Blocked);
    assert_eq!(probe.attempt_count, 2);
    assert!(probe
        .attempts
        .iter()
        .all(|attempt| attempt.probe.correction_limit_abs_mm == Some(50)));
    assert!(probe
        .attempts
        .iter()
        .any(|attempt| attempt.probe.clamped_correction_count > 0));
}

#[test]
fn collision_batch_movement_probe_resolves_multiple_candidates_deterministically() {
    let world =
        CollisionWorld::with_bodies(1_000, vec![collision_body(1, 0, 0, 500), collision_body(2, 1_200, 0, 500)])
            .expect("valid world");

    let report = world.probe_batch_movements_after_resolution(
        vec![CollisionBatchMovementCandidate {
            entity_id: EntityId(1),
            target_position: WorldPosition { x_mm: 800, y_mm: 0 },
        }],
        1,
    );

    assert_eq!(report.candidate_count, 1);
    assert_eq!(report.accepted_count, 0);
    assert_eq!(report.corrected_count, 1);
    assert_eq!(report.blocked_count, 0);
    assert_eq!(report.unknown_body_count, 0);
    assert_eq!(report.initial_rejected_count, 1);
    assert_eq!(report.iterations_requested, 1);
    assert_eq!(report.iterations_run, 1);
    assert_eq!(report.applied_correction_count, 2);
    assert_eq!(report.applied_correction_abs_mm_total, 601);
    assert_eq!(report.max_applied_correction_abs_mm, 301);
    assert_eq!(report.correction_limit_abs_mm, None);
    assert_eq!(report.clamped_correction_count, 0);
    assert_eq!(report.final_contact_count, 0);
    assert_eq!(report.claim_scope, "batch_movement_probe_only");
    assert_eq!(report.samples.len(), 1);
    assert_eq!(
        report.samples[0].resolved_position,
        Some(WorldPosition { x_mm: 500, y_mm: 0 })
    );
    assert_eq!(
        report.samples[0].decision,
        CollisionMovementDecision::Corrected
    );
}

#[test]
fn collision_batch_movement_probe_can_clamp_local_resolution() {
    let world =
        CollisionWorld::with_bodies(1_000, vec![collision_body(1, 0, 0, 500), collision_body(2, 1_200, 0, 500)])
            .expect("valid world");

    let report = world.probe_batch_movements_after_resolution_with_correction_limit(
        vec![
            CollisionBatchMovementCandidate {
                entity_id: EntityId(1),
                target_position: WorldPosition { x_mm: 800, y_mm: 0 },
            },
            CollisionBatchMovementCandidate {
                entity_id: EntityId(99),
                target_position: WorldPosition { x_mm: 0, y_mm: 0 },
            },
        ],
        1,
        50,
    );

    assert_eq!(report.candidate_count, 2);
    assert_eq!(report.accepted_count, 0);
    assert_eq!(report.corrected_count, 0);
    assert_eq!(report.blocked_count, 1);
    assert_eq!(report.unknown_body_count, 1);
    assert_eq!(report.initial_rejected_count, 1);
    assert_eq!(report.iterations_requested, 1);
    assert_eq!(report.iterations_run, 1);
    assert_eq!(report.applied_correction_count, 2);
    assert_eq!(report.applied_correction_abs_mm_total, 100);
    assert_eq!(report.max_applied_correction_abs_mm, 50);
    assert_eq!(report.correction_limit_abs_mm, Some(50));
    assert_eq!(report.clamped_correction_count, 2);
    assert_eq!(report.final_contact_count, 1);
    assert_eq!(report.samples.len(), 2);
    assert_eq!(
        report.samples[0].resolved_position,
        Some(WorldPosition { x_mm: 750, y_mm: 0 })
    );
    assert_eq!(
        report.samples[0].decision,
        CollisionMovementDecision::Blocked
    );
    assert_eq!(report.samples[0].blocking_entity_ids, vec![EntityId(2)]);
    assert_eq!(
        report.samples[1].decision,
        CollisionMovementDecision::UnknownBody
    );
    assert_eq!(report.samples[1].resolved_position, None);
}

#[test]
fn collision_movement_probe_reports_blocked_and_unknown_candidates() {
    let world =
        CollisionWorld::with_bodies(1_000, vec![collision_body(1, 0, 0, 500), collision_body(2, 1_200, 0, 500)])
            .expect("valid world");

    let blocked = world.probe_movement_after_resolution(
        EntityId(1),
        WorldPosition { x_mm: 800, y_mm: 0 },
        0,
    );
    assert_eq!(blocked.decision, CollisionMovementDecision::Blocked);
    assert_eq!(
        blocked.resolved_result,
        CollisionResolvedAdmissionResult::RejectedStillOverlapping
    );
    assert_eq!(
        blocked.resolved_delta,
        Some(MovementDelta {
            dx_mm: 800,
            dy_mm: 0
        })
    );
    assert_eq!(blocked.blocking_entity_ids, vec![EntityId(2)]);
    assert_eq!(blocked.applied_correction_abs_mm_total, 0);
    assert_eq!(blocked.max_applied_correction_abs_mm, 0);
    assert_eq!(blocked.correction_limit_abs_mm, None);
    assert_eq!(blocked.clamped_correction_count, 0);

    let unknown = world.probe_movement_after_resolution(
        EntityId(99),
        WorldPosition { x_mm: 0, y_mm: 0 },
        1,
    );
    assert_eq!(unknown.decision, CollisionMovementDecision::UnknownBody);
    assert_eq!(unknown.from, None);
    assert_eq!(unknown.requested_delta, None);
    assert_eq!(unknown.resolved_delta, None);
    assert_eq!(unknown.applied_correction_abs_mm_total, 0);
    assert_eq!(unknown.max_applied_correction_abs_mm, 0);
    assert_eq!(unknown.correction_limit_abs_mm, None);
    assert_eq!(unknown.clamped_correction_count, 0);
}

#[test]
fn collision_resolution_plan_is_empty_without_contacts() {
    let world =
        CollisionWorld::with_bodies(1_000, vec![collision_body(1, 0, 0, 400), collision_body(2, 2_000, 0, 400)])
            .expect("valid world");

    let plan = world.plan_overlap_resolution();

    assert_eq!(
        plan,
        CollisionResolutionPlan {
            contact_count: 0,
            corrections: Vec::new(),
            claim_scope: "resolution_plan_only",
        }
    );
}

#[test]
fn collision_resolution_plan_splits_overlap_deterministically() {
    let world =
        CollisionWorld::with_bodies(1_000, vec![collision_body(1, 0, 0, 500), collision_body(2, 800, 0, 500)])
            .expect("valid world");

    let plan = world.plan_overlap_resolution();

    assert_eq!(plan.contact_count, 1);
    assert_eq!(plan.claim_scope, "resolution_plan_only");
    assert_eq!(
        plan.corrections,
        vec![
            CollisionCorrection {
                entity_id: EntityId(1),
                dx_mm: -100,
                dy_mm: 0,
            },
            CollisionCorrection {
                entity_id: EntityId(2),
                dx_mm: 101,
                dy_mm: 0,
            },
        ]
    );
}

#[test]
fn collision_resolution_plan_handles_identical_positions_by_entity_order() {
    let world =
        CollisionWorld::with_bodies(1_000, vec![collision_body(10, 0, 0, 300), collision_body(11, 0, 0, 300)])
            .expect("valid world");

    let plan = world.plan_overlap_resolution();

    assert_eq!(plan.contact_count, 1);
    assert_eq!(
        plan.corrections,
        vec![
            CollisionCorrection {
                entity_id: EntityId(10),
                dx_mm: -300,
                dy_mm: 0,
            },
            CollisionCorrection {
                entity_id: EntityId(11),
                dx_mm: 301,
                dy_mm: 0,
            },
        ]
    );
}

#[test]
fn collision_resolution_plan_keeps_static_obstacles_immovable() {
    let world = CollisionWorld::with_bodies(
        1_000,
        vec![collision_body(1, 0, 0, 500), collision_static_body(2, 800, 0, 500)],
    )
    .expect("valid world");

    let plan = world.plan_overlap_resolution();

    assert_eq!(plan.contact_count, 1);
    assert_eq!(
        plan.corrections,
        vec![CollisionCorrection {
            entity_id: EntityId(1),
            dx_mm: -201,
            dy_mm: 0,
        }]
    );
}

#[test]
fn collision_resolution_plan_does_not_correct_static_static_contacts() {
    let world = CollisionWorld::with_bodies(
        1_000,
        vec![collision_static_body(1, 0, 0, 500), collision_static_body(2, 800, 0, 500)],
    )
    .expect("valid world");

    let plan = world.plan_overlap_resolution();

    assert_eq!(plan.contact_count, 1);
    assert!(plan.corrections.is_empty());
}

#[test]
fn collision_world_applies_resolution_plan_to_local_body_positions() {
    let mut world =
        CollisionWorld::with_bodies(1_000, vec![collision_body(1, 0, 0, 500), collision_body(2, 800, 0, 500)])
            .expect("valid world");
    let plan = world.plan_overlap_resolution();

    assert_eq!(world.apply_resolution_plan(&plan), 2);

    assert_eq!(
        world.body(EntityId(1)).map(|body| body.position),
        Some(WorldPosition {
            x_mm: -100,
            y_mm: 0,
        })
    );
    assert_eq!(
        world.body(EntityId(2)).map(|body| body.position),
        Some(WorldPosition { x_mm: 901, y_mm: 0 })
    );
    assert!(world.detect_overlaps().is_empty());
}

#[test]
fn collision_physics_step_resolves_against_static_obstacle_without_moving_it() {
    let mut world = CollisionWorld::with_bodies(
        1_000,
        vec![collision_body(1, 0, 0, 500), collision_static_body(2, 800, 0, 500)],
    )
    .expect("valid world");

    let step = world.step_overlap_resolution(1);

    assert_eq!(step.initial_contact_count, 1);
    assert_eq!(step.iterations_run, 1);
    assert_eq!(step.applied_correction_count, 1);
    assert_eq!(step.applied_correction_abs_mm_total, 201);
    assert_eq!(step.max_applied_correction_abs_mm, 201);
    assert_eq!(step.correction_limit_abs_mm, None);
    assert_eq!(step.clamped_correction_count, 0);
    assert_eq!(step.final_contact_count, 0);
    assert_eq!(
        world.body(EntityId(1)).map(|body| body.position),
        Some(WorldPosition {
            x_mm: -201,
            y_mm: 0
        })
    );
    assert_eq!(
        world.body(EntityId(2)).map(|body| body.position),
        Some(WorldPosition { x_mm: 800, y_mm: 0 })
    );
}

#[test]
fn collision_physics_step_leaves_static_static_contacts_unresolved() {
    let mut world = CollisionWorld::with_bodies(
        1_000,
        vec![collision_static_body(1, 0, 0, 500), collision_static_body(2, 800, 0, 500)],
    )
    .expect("valid world");

    let step = world.step_overlap_resolution(2);

    assert_eq!(step.initial_contact_count, 1);
    assert_eq!(step.iterations_run, 0);
    assert_eq!(step.applied_correction_count, 0);
    assert_eq!(step.applied_correction_abs_mm_total, 0);
    assert_eq!(step.max_applied_correction_abs_mm, 0);
    assert_eq!(step.correction_limit_abs_mm, None);
    assert_eq!(step.clamped_correction_count, 0);
    assert_eq!(step.final_contact_count, 1);
    assert!(!step.resolved);
    assert_eq!(
        world.body(EntityId(1)).map(|body| body.position),
        Some(WorldPosition { x_mm: 0, y_mm: 0 })
    );
    assert_eq!(
        world.body(EntityId(2)).map(|body| body.position),
        Some(WorldPosition { x_mm: 800, y_mm: 0 })
    );
}

#[test]
fn collision_physics_step_resolves_simple_overlap_with_bounded_iterations() {
    let mut world =
        CollisionWorld::with_bodies(1_000, vec![collision_body(1, 0, 0, 500), collision_body(2, 800, 0, 500)])
            .expect("valid world");

    let step = world.step_overlap_resolution(1);

    assert_eq!(
        step,
        CollisionPhysicsStep {
            initial_contact_count: 1,
            iterations_requested: 1,
            iterations_run: 1,
            applied_correction_count: 2,
            applied_correction_abs_mm_total: 201,
            max_applied_correction_abs_mm: 101,
            correction_limit_abs_mm: None,
            clamped_correction_count: 0,
            final_contact_count: 0,
            resolved: true,
            claim_scope: "collision_world_only",
        }
    );
}

#[test]
fn collision_physics_step_can_clamp_large_local_corrections() {
    let mut world =
        CollisionWorld::with_bodies(1_000, vec![collision_body(1, 0, 0, 500), collision_body(2, 800, 0, 500)])
            .expect("valid world");

    let step = world.step_overlap_resolution_with_correction_limit(1, 50);

    assert_eq!(step.initial_contact_count, 1);
    assert_eq!(step.iterations_requested, 1);
    assert_eq!(step.iterations_run, 1);
    assert_eq!(step.applied_correction_count, 2);
    assert_eq!(step.applied_correction_abs_mm_total, 100);
    assert_eq!(step.max_applied_correction_abs_mm, 50);
    assert_eq!(step.correction_limit_abs_mm, Some(50));
    assert_eq!(step.clamped_correction_count, 2);
    assert_eq!(step.final_contact_count, 1);
    assert!(!step.resolved);
    assert_eq!(
        world.body(EntityId(1)).map(|body| body.position),
        Some(WorldPosition { x_mm: -50, y_mm: 0 })
    );
    assert_eq!(
        world.body(EntityId(2)).map(|body| body.position),
        Some(WorldPosition { x_mm: 850, y_mm: 0 })
    );
}

#[test]
fn collision_physics_step_respects_zero_iteration_budget() {
    let mut world =
        CollisionWorld::with_bodies(1_000, vec![collision_body(1, 0, 0, 500), collision_body(2, 800, 0, 500)])
            .expect("valid world");

    let step = world.step_overlap_resolution(0);

    assert_eq!(
        step,
        CollisionPhysicsStep {
            initial_contact_count: 1,
            iterations_requested: 0,
            iterations_run: 0,
            applied_correction_count: 0,
            applied_correction_abs_mm_total: 0,
            max_applied_correction_abs_mm: 0,
            correction_limit_abs_mm: None,
            clamped_correction_count: 0,
            final_contact_count: 1,
            resolved: false,
            claim_scope: "collision_world_only",
        }
    );
    assert_eq!(
        world.body(EntityId(1)).map(|body| body.position),
        Some(WorldPosition { x_mm: 0, y_mm: 0 })
    );
}

#[test]
fn collision_perf_smoke_scenarios_cover_1k_and_5k() {
    let scenarios = collision_perf_scenarios()
        .iter()
        .map(|scenario| (scenario.id.as_str(), scenario.body_count))
        .collect::<Vec<_>>();

    assert_eq!(
        scenarios,
        vec![
            ("collision_clustered_swarm_1k", 1_000),
            ("collision_clustered_swarm_5k", 5_000),
        ]
    );
}

#[test]
fn collision_perf_smoke_records_1k_contacts_iterations_and_time() {
    let run = run_collision_perf_smoke(collision_perf_scenarios()[0]);

    assert_eq!(run.scenario_id, CollisionPerfScenarioId::ClusteredSwarm1k);
    assert_eq!(run.body_count, 1_000);
    assert_eq!(run.cluster_count, 50);
    assert_eq!(run.resolved_admission_check_count, 4);
    assert!(run.resolved_admission_accepted_after_resolution_count > 0);
    assert!(run.resolved_admission_rejected_count > 0);
    assert_eq!(run.static_obstacle_resolution_check_count, 1);
    assert!(run.static_obstacle_correction_count > 0);
    assert_eq!(run.clamped_resolution_check_count, 1);
    assert_eq!(
        run.clamped_correction_limit_abs_mm,
        COLLISION_STABILITY_CLAMP_LIMIT_ABS_MM
    );
    assert!(run.clamped_correction_count > 0);
    assert!(run.clamped_max_applied_correction_abs_mm <= run.clamped_correction_limit_abs_mm);
    assert!(run.initial_contact_count > 1_000);
    assert_eq!(run.iterations_requested, 2);
    assert!(run.iterations_run > 0);
    assert!(run.iterations_run <= run.iterations_requested);
    assert!(run.applied_correction_count > 0);
    assert!(run.elapsed_us > 0);
    assert_eq!(run.budget_result, "blocked");
    assert_eq!(run.claim_scope, "local_smoke_only");
}

#[test]
fn collision_perf_smoke_records_bounded_5k_physics_pressure() {
    let run = run_collision_perf_smoke(collision_perf_scenarios()[1]);

    assert_eq!(run.scenario_id, CollisionPerfScenarioId::ClusteredSwarm5k);
    assert_eq!(run.body_count, 5_000);
    assert_eq!(run.cluster_count, 250);
    assert_eq!(run.resolved_admission_check_count, 4);
    assert!(run.resolved_admission_accepted_after_resolution_count > 0);
    assert!(run.resolved_admission_rejected_count > 0);
    assert_eq!(run.static_obstacle_resolution_check_count, 1);
    assert!(run.static_obstacle_correction_count > 0);
    assert_eq!(run.clamped_resolution_check_count, 1);
    assert_eq!(
        run.clamped_correction_limit_abs_mm,
        COLLISION_STABILITY_CLAMP_LIMIT_ABS_MM
    );
    assert!(run.clamped_correction_count > 0);
    assert!(run.clamped_max_applied_correction_abs_mm <= run.clamped_correction_limit_abs_mm);
    assert!(run.initial_contact_count > 5_000);
    assert_eq!(run.iterations_requested, 2);
    assert!(run.iterations_run > 0);
    assert!(run.iterations_run <= run.iterations_requested);
    assert!(run.applied_correction_count > 0);
    assert!(run.elapsed_us > 0);
    assert_eq!(run.budget_result, "blocked");
    assert_eq!(run.claim_scope, "local_smoke_only");
}
