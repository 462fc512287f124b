use millions_server::interest::{AggregateFarState, AoiRegion, InterestManager, InterestUpdate, aggregate_far_state, build_interest_snapshot_delta, build_visible_delta_snapshot, visible_entities_for_region};
use millions_server::simulation::{EntityColumns, EntityId, EntityState, PlayerSessionId, SpatialCell, SpatialGrid, Tick, WorldPosition};

fn interest_entity(entity_id: u64, x_mm: i32, y_mm: i32) -> EntityState {
    EntityState {
        entity_id: EntityId(entity_id),
        entity_kind: 1,
        faction_id: 1,
        flags: 0,
        position: WorldPosition { x_mm, y_mm },
        facing_millirad: 0,
        health_q8: 256,
        state_id: 0,
        state_param_q8: 0,
    }
}

fn interest_grid_for_entities(entities: &[EntityState]) -> SpatialGrid {
    let mut columns = EntityColumns::with_capacity(entities.len());
    for entity in entities {
        columns.push(*entity);
    }
    let mut grid = SpatialGrid::new(1_000);
    grid.rebuild(&columns);
    grid
}

#[test]
fn aoi_region_cells_are_square_and_deterministic() {
    let region = AoiRegion::new(SpatialCell { x: 5, y: -2 }, 1);

    assert!(region.contains_cell(SpatialCell { x: 4, y: -3 }));
    assert!(region.contains_cell(SpatialCell { x: 6, y: -1 }));
    assert!(!region.contains_cell(SpatialCell { x: 7, y: -2 }));
    assert_eq!(
        region.cells(),
        vec![
            SpatialCell { x: 4, y: -3 },
            SpatialCell { x: 5, y: -3 },
            SpatialCell { x: 6, y: -3 },
            SpatialCell { x: 4, y: -2 },
            SpatialCell { x: 5, y: -2 },
            SpatialCell { x: 6, y: -2 },
            SpatialCell { x: 4, y: -1 },
            SpatialCell { x: 5, y: -1 },
            SpatialCell { x: 6, y: -1 },
        ]
    );
}

#[test]
fn visible_entities_are_collected_from_region_cells() {
    let grid = interest_grid_for_entities(&[
        interest_entity(1, 0, 0),
        interest_entity(2, 999, 999),
        interest_entity(3, 1_000, 0),
        interest_entity(4, 3_000, 0),
    ]);
    let region = AoiRegion::new(SpatialCell { x: 0, y: 0 }, 1);

    assert_eq!(
        visible_entities_for_region(region, &grid),
        vec![EntityId(1), EntityId(2), EntityId(3)]
    );
}

#[test]
fn subscription_refresh_reports_entered_and_left_entities() {
    let session = PlayerSessionId(77);
    let mut manager = InterestManager::new();
    manager.upsert_subscription(session, AoiRegion::new(SpatialCell { x: 0, y: 0 }, 0));

    let first_grid = interest_grid_for_entities(&[interest_entity(1, 0, 0), interest_entity(2, 1_000, 0)]);
    let first = manager
        .refresh_subscription(session, &first_grid)
        .expect("subscription exists");

    assert_eq!(first.visible_entities, vec![EntityId(1)]);
    assert_eq!(first.entered_entities, vec![EntityId(1)]);
    assert!(first.left_entities.is_empty());

    manager.upsert_subscription(session, AoiRegion::new(SpatialCell { x: 1, y: 0 }, 0));
    let second_grid = interest_grid_for_entities(&[interest_entity(2, 1_000, 0), interest_entity(3, 1_000, 500)]);
    let second = manager
        .refresh_subscription(session, &second_grid)
        .expect("subscription exists");

    assert_eq!(
        second.visible_entities,
        vec![EntityId(2), EntityId(3)]
    );
    assert_eq!(
        second.entered_entities,
        vec![EntityId(2), EntityId(3)]
    );
    assert_eq!(second.left_entities, vec![EntityId(1)]);
    assert_eq!(
        manager.subscription(session).unwrap().visible_entities(),
        &vec![EntityId(2), EntityId(3)]
    );
}

#[test]
fn subscriptions_are_independent_per_session() {
    let grid = interest_grid_for_entities(&[interest_entity(1, 0, 0), interest_entity(2, 2_000, 0)]);
    let mut manager = InterestManager::new();
    let first = PlayerSessionId(1);
    let second = PlayerSessionId(2);

    manager.upsert_subscription(first, AoiRegion::new(SpatialCell { x: 0, y: 0 }, 0));
    manager.upsert_subscription(second, AoiRegion::new(SpatialCell { x: 2, y: 0 }, 0));

    assert_eq!(
        manager
            .refresh_subscription(first, &grid)
            .unwrap()
            .visible_entities,
        vec![EntityId(1)]
    );
    assert_eq!(
        manager
            .refresh_subscription(second, &grid)
            .unwrap()
            .visible_entities,
        vec![EntityId(2)]
    );

    assert!(manager.remove_subscription(first).is_some());
    assert!(manager.refresh_subscription(first, &grid).is_none());
    assert!(manager.refresh_subscription(second, &grid).is_some());
}

#[test]
fn visible_delta_snapshot_contains_sorted_visible_entities_and_left_ids() {
    let update = InterestUpdate {
        session_id: PlayerSessionId(9),
        region: AoiRegion::new(SpatialCell { x: 0, y: 0 }, 1),
        visible_entities: vec![EntityId(1), EntityId(3)],
        entered_entities: vec![EntityId(3)],
        left_entities: vec![EntityId(2)],
    };

    let snapshot = build_visible_delta_snapshot(
        &update,
        &vec![
            interest_entity(3, 3_000, 0),
            interest_entity(1, 1_000, 0),
            interest_entity(2, 2_000, 0),
        ],
        20,
        19,
        Tick(100),
    );

    assert_eq!(snapshot.snapshot_id, 20);
    assert_eq!(snapshot.baseline_snapshot_id, 19);
    assert_eq!(
        snapshot
            .entities
            .iter()
            .map(|entity| entity.entity_id)
            .collect::<Vec<_>>(),
        vec![EntityId(1), EntityId(3)]
    );
    assert_eq!(snapshot.removed_entities, vec![EntityId(2)]);
}

#[test]
fn aggregate_far_state_skips_visible_cells_and_summarizes_far_cells() {
    let far_same_cell_a = EntityState {
        faction_id: 1,
        flags: 0b0001,
        ..interest_entity(3, 3_000, 0)
    };
    let far_same_cell_b = EntityState {
        faction_id: 2,
        flags: 0b0100,
        ..interest_entity(4, 3_500, 500)
    };
    let entities = [
        interest_entity(1, 0, 0),
        interest_entity(2, 1_000, 0),
        far_same_cell_a,
        far_same_cell_b,
    ];
    let grid = interest_grid_for_entities(&entities);
    let region = AoiRegion::new(SpatialCell { x: 0, y: 0 }, 1);

    let aggregate = aggregate_far_state(region, &grid, &entities.to_vec());

    assert_eq!(
        aggregate,
        vec![AggregateFarState {
            cell: SpatialCell { x: 3, y: 0 },
            entity_count: 2,
            representative_entity_id: EntityId(3),
            faction_mask: (1 << 1) | (1 << 2),
            flags_or: 0b0101,
        }]
    );
}

#[test]
fn interest_snapshot_delta_pairs_visible_delta_with_far_aggregate() {
    let session = PlayerSessionId(12);
    let mut manager = InterestManager::new();
    manager.upsert_subscription(session, AoiRegion::new(SpatialCell { x: 0, y: 0 }, 0));
    let entities = [interest_entity(1, 0, 0), interest_entity(2, 2_000, 0)];
    let grid = interest_grid_for_entities(&entities);
    let update = manager.refresh_subscription(session, &grid).unwrap();

    let delta = build_interest_snapshot_delta(&update, &entities.to_vec(), &grid, 30, 29, Tick(120));

    assert_eq!(delta.snapshot.entities.len(), 1);
    assert_eq!(delta.snapshot.entities[0].entity_id, EntityId(1));
    assert_eq!(delta.aggregate_far_state.len(), 1);
    assert_eq!(
        delta.aggregate_far_state[0].representative_entity_id,
        EntityId(2)
    );
}
