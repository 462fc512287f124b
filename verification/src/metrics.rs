use vstd::prelude::*;

use crate::simulation::Snapshot;

verus! {

pub const SNAPSHOT_HEADER_BYTES: u64 = 24;

pub const SNAPSHOT_ENTITY_BYTES: u64 = 36;

pub const SNAPSHOT_REMOVED_ENTITY_BYTES: u64 = 8;

/// The estimated wire size of a snapshot: a header, then a fixed size per entity and per
/// removed id.
pub open spec fn snapshot_bytes(entities: nat, removed: nat) -> int {
    SNAPSHOT_HEADER_BYTES + entities * SNAPSHOT_ENTITY_BYTES + removed * SNAPSHOT_REMOVED_ENTITY_BYTES
}

pub fn estimate_snapshot_bytes(snapshot: &Snapshot) -> (r: u64)
    requires
        snapshot_bytes(snapshot.entities@.len(), snapshot.removed_entities@.len()) <= u64::MAX,
    ensures
        r == snapshot_bytes(snapshot.entities@.len(), snapshot.removed_entities@.len()),
{
    let entities = snapshot.entities.len() as u64;
    let removed = snapshot.removed_entities.len() as u64;
    assert(entities * SNAPSHOT_ENTITY_BYTES <= u64::MAX);
    assert(removed * SNAPSHOT_REMOVED_ENTITY_BYTES <= u64::MAX);
    SNAPSHOT_HEADER_BYTES + entities * SNAPSHOT_ENTITY_BYTES + removed * SNAPSHOT_REMOVED_ENTITY_BYTES
}

} // verus!
