use millions_server::metrics::{SNAPSHOT_ENTITY_BYTES, SNAPSHOT_HEADER_BYTES, SNAPSHOT_REMOVED_ENTITY_BYTES, estimate_snapshot_bytes};
use millions_server::simulation::{EntityId, EntityState, SnapshotBuilder, Tick, WorldPosition};

fn entity(entity_id: u64) -> EntityState {
    EntityState {
        entity_id: EntityId(entity_id),
        entity_kind: 1,
        faction_id: 1,
        flags: 0,
        position: WorldPosition { x_mm: 0, y_mm: 0 },
        facing_millirad: 0,
        health_q8: 256,
        state_id: 0,
        state_param_q8: 0,
    }
}

#[test]
fn snapshot_size_counts_header_entities_and_removals() {
    let mut builder = SnapshotBuilder::delta(2, 1, Tick(20));
    builder.push_entity(entity(1));
    builder.push_entity(entity(2));
    builder.push_removed(EntityId(9));
    let snapshot = builder.build();

    assert_eq!(
        estimate_snapshot_bytes(&snapshot),
        SNAPSHOT_HEADER_BYTES + 2 * SNAPSHOT_ENTITY_BYTES + SNAPSHOT_REMOVED_ENTITY_BYTES
    );
}

#[test]
fn snapshot_size_of_empty_snapshot_is_the_header() {
    let snapshot = SnapshotBuilder::full(1, Tick(0)).build();
    assert_eq!(estimate_snapshot_bytes(&snapshot), 24);
}
