use millions_server::simulation::{EntityColumns, EntityId, EntityState, MovementDelta, SpatialCell, SpatialGrid, WorldPosition};

fn entity(entity_id: u64, x_mm: i32, y_mm: i32) -> EntityState {
    EntityState {
        entity_id: EntityId(entity_id),
        entity_kind: 2,
        faction_id: 3,
        flags: 4,
        position: WorldPosition { x_mm, y_mm },
        facing_millirad: 900,
        health_q8: 255,
        state_id: 6,
        state_param_q8: -7,
    }
}

#[test]
fn entity_columns_roundtrip_abstract_entity_state() {
    let mut entities = EntityColumns::with_capacity(2);
    let first = entity(10, 1200, -3400);
    let second = entity(11, -1, 0);

    assert_eq!(entities.push(first), 0);
    assert_eq!(entities.push(second), 1);

    assert_eq!(entities.len(), 2);
    assert!(!entities.is_empty());
    assert_eq!(entities.entity(0), Some(first));
    assert_eq!(entities.entity(1), Some(second));
    assert_eq!(entities.entity(2), None);
    assert_eq!(
        entities.iter_entities(),
        vec![first, second]
    );
}

#[test]
fn entity_columns_apply_movement_stub_updates_position_columns() {
    let mut entities = EntityColumns::new();
    entities.push(entity(12, i32::MAX - 10, -10));

    assert!(entities.apply_movement_stub(
        0,
        MovementDelta {
            dx_mm: 20,
            dy_mm: -15,
        }
    ));
    assert!(!entities.apply_movement_stub(1, MovementDelta { dx_mm: 1, dy_mm: 1 }));

    assert_eq!(
        entities.position(0),
        Some(WorldPosition {
            x_mm: i32::MAX,
            y_mm: -25,
        })
    );
}

#[test]
fn spatial_grid_assigns_cells_with_euclidean_negative_coordinates() {
    let grid = SpatialGrid::new(1000);

    assert_eq!(
        grid.cell_for_position(WorldPosition { x_mm: 0, y_mm: 999 }),
        SpatialCell { x: 0, y: 0 }
    );
    assert_eq!(
        grid.cell_for_position(WorldPosition {
            x_mm: -1,
            y_mm: -1000
        }),
        SpatialCell { x: -1, y: -1 }
    );
    assert_eq!(
        grid.cell_for_position(WorldPosition {
            x_mm: -1001,
            y_mm: 1000,
        }),
        SpatialCell { x: -2, y: 1 }
    );
}

#[test]
fn spatial_grid_rebuild_is_deterministic_and_clears_stale_membership() {
    let mut entities = EntityColumns::new();
    entities.push(entity(1, 100, 100));
    entities.push(entity(2, 900, 900));
    entities.push(entity(3, 1000, 1000));

    let mut grid = SpatialGrid::new(1000);
    grid.rebuild(&entities);

    assert_eq!(
        grid.entities_in_cell(SpatialCell { x: 0, y: 0 }),
        &[EntityId(1), EntityId(2)]
    );
    assert_eq!(
        grid.entities_in_cell(SpatialCell { x: 1, y: 1 }),
        &[EntityId(3)]
    );

    let occupied = grid
        .occupied_cells()
        .iter()
        .map(|(cell, ids)| (*cell, ids.to_vec()))
        .collect::<Vec<_>>();
    assert_eq!(
        occupied,
        vec![
            (SpatialCell { x: 0, y: 0 }, vec![EntityId(1), EntityId(2)]),
            (SpatialCell { x: 1, y: 1 }, vec![EntityId(3)]),
        ]
    );

    let mut fewer_entities = EntityColumns::new();
    fewer_entities.push(entity(4, -1, -1));
    grid.rebuild(&fewer_entities);

    assert!(grid.entities_in_cell(SpatialCell { x: 0, y: 0 }).is_empty());
    assert_eq!(
        grid.entities_in_cell(SpatialCell { x: -1, y: -1 }),
        &[EntityId(4)]
    );
}
