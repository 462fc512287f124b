use vstd::prelude::*;

use crate::arith::{abs, clamp_i32, clamp_u64, sat_add_i32, sat_add_u32, sat_add_u64, sat_sub_i32, sign, signum_i32, unsigned_abs_i32};
use crate::simulation::{cell_for, cell_of, EntityId, MovementDelta, SpatialCell, WorldPosition};

verus! {

pub const COLLISION_SCHEMA: &'static str = "millions_collision_prep_v0";

pub const COLLISION_STABILITY_CLAMP_LIMIT_ABS_MM: u32 = 50;

#[derive(Debug, Clone, Copy, PartialEq, Eq, PartialOrd, Ord, Structural)]
pub enum CollisionBodyKind {
    Swarm,
    Unit,
    StaticObstacle,
}

#[derive(Debug, Clone, Copy, PartialEq, Eq, Structural)]
pub struct CollisionBody {
    pub entity_id: EntityId,
    pub kind: CollisionBodyKind,
    pub position: WorldPosition,
    pub radius_mm: i32,
}

#[derive(Debug, Clone, Copy, PartialEq, Eq, Structural)]
pub struct CollisionContact {
    pub a: EntityId,
    pub b: EntityId,
    pub distance_sq_mm: u64,
    pub min_distance_mm: i32,
    pub overlap_mm: i32,
}

#[derive(Debug, Clone, PartialEq, Eq)]
pub struct CollisionProbe {
    pub position: WorldPosition,
    pub radius_mm: i32,
    pub overlapping_entity_ids: Vec<EntityId>,
}

#[derive(Debug, Clone, Copy, PartialEq, Eq, Structural)]
pub enum CollisionAdmissionResult {
    Accepted,
    RejectedOverlap,
    UnknownBody,
}

#[derive(Debug, Clone, Copy, PartialEq, Eq, Structural)]
pub enum CollisionResolvedAdmissionResult {
    Accepted,
    AcceptedAfterResolution,
    RejectedStillOverlapping,
    UnknownBody,
}

#[derive(Debug, Clone, PartialEq, Eq)]
pub struct CollisionAdmission {
    pub entity_id: EntityId,
    pub from: Option<WorldPosition>,
    pub to: WorldPosition,
    pub radius_mm: i32,
    pub result: CollisionAdmissionResult,
    pub blocking_entity_ids: Vec<EntityId>,
}

#[derive(Debug, Clone, PartialEq, Eq)]
pub struct CollisionResolvedAdmission {
    pub entity_id: EntityId,
    pub requested_position: WorldPosition,
    pub resolved_position: Option<WorldPosition>,
    pub initial_result: CollisionAdmissionResult,
    pub initial_blocking_entity_ids: Vec<EntityId>,
    pub result: CollisionResolvedAdmissionResult,
    pub blocking_entity_ids: Vec<EntityId>,
    pub iterations_requested: usize,
    pub iterations_run: usize,
    pub applied_correction_count: usize,
    pub applied_correction_abs_mm_total: u64,
    pub max_applied_correction_abs_mm: u32,
    pub correction_limit_abs_mm: Option<u32>,
    pub clamped_correction_count: usize,
    pub final_contact_count: usize,
    pub claim_scope: &'static str,
}

#[derive(Debug, Clone, Copy, PartialEq, Eq, Structural)]
pub enum CollisionMovementDecision {
    Accepted,
    Corrected,
    Blocked,
    UnknownBody,
}

#[derive(Debug, Clone, Copy, PartialEq, Eq, Structural)]
pub enum CollisionSlideAxis {
    X,
    Y,
}

#[derive(Debug, Clone, PartialEq, Eq)]
pub struct CollisionSlideAttempt {
    pub axis: CollisionSlideAxis,
    pub probe: CollisionMovementProbe,
}

#[derive(Debug, Clone, PartialEq, Eq)]
pub struct CollisionMovementSlideProbe {
    pub entity_id: EntityId,
    pub requested_probe: CollisionMovementProbe,
    pub decision: CollisionMovementDecision,
    pub selected_axis: Option<CollisionSlideAxis>,
    pub selected_position: Option<WorldPosition>,
    pub selected_delta: Option<MovementDelta>,
    pub attempt_count: usize,
    pub attempts: Vec<CollisionSlideAttempt>,
    pub claim_scope: &'static str,
}

#[derive(Debug, Clone, PartialEq, Eq)]
pub struct CollisionMovementProbe {
    pub entity_id: EntityId,
    pub from: Option<WorldPosition>,
    pub requested_position: WorldPosition,
    pub resolved_position: Option<WorldPosition>,
    pub requested_delta: Option<MovementDelta>,
    pub resolved_delta: Option<MovementDelta>,
    pub initial_result: CollisionAdmissionResult,
    pub resolved_result: CollisionResolvedAdmissionResult,
    pub decision: CollisionMovementDecision,
    pub initial_blocking_entity_ids: Vec<EntityId>,
    pub blocking_entity_ids: Vec<EntityId>,
    pub iterations_requested: usize,
    pub iterations_run: usize,
    pub applied_correction_count: usize,
    pub applied_correction_abs_mm_total: u64,
    pub max_applied_correction_abs_mm: u32,
    pub correction_limit_abs_mm: Option<u32>,
    pub clamped_correction_count: usize,
    pub final_contact_count: usize,
    pub claim_scope: &'static str,
}

#[derive(Debug, Clone, Copy, PartialEq, Eq, Structural)]
pub struct CollisionBatchMovementCandidate {
    pub entity_id: EntityId,
    pub target_position: WorldPosition,
}

#[derive(Debug, Clone, PartialEq, Eq)]
pub struct CollisionBatchMovementSample {
    pub entity_id: EntityId,
    pub from: Option<WorldPosition>,
    pub requested_position: WorldPosition,
    pub resolved_position: Option<WorldPosition>,
    pub requested_delta: Option<MovementDelta>,
    pub resolved_delta: Option<MovementDelta>,
    pub initial_result: CollisionAdmissionResult,
    pub resolved_result: CollisionResolvedAdmissionResult,
    pub decision: CollisionMovementDecision,
    pub initial_blocking_entity_ids: Vec<EntityId>,
    pub blocking_entity_ids: Vec<EntityId>,
}

#[derive(Debug, Clone, PartialEq, Eq)]
pub struct CollisionBatchMovementProbeReport {
    pub candidate_count: usize,
    pub accepted_count: usize,
    pub corrected_count: usize,
    pub blocked_count: usize,
    pub unknown_body_count: usize,
    pub initial_rejected_count: usize,
    pub iterations_requested: usize,
    pub iterations_run: usize,
    pub applied_correction_count: usize,
    pub applied_correction_abs_mm_total: u64,
    pub max_applied_correction_abs_mm: u32,
    pub correction_limit_abs_mm: Option<u32>,
    pub clamped_correction_count: usize,
    pub final_contact_count: usize,
    pub samples: Vec<CollisionBatchMovementSample>,
    pub claim_scope: &'static str,
}

#[derive(Debug, Clone, Copy, PartialEq, Eq, Structural)]
pub enum CollisionPerfScenarioId {
    ClusteredSwarm1k,
    ClusteredSwarm5k,
}

impl CollisionPerfScenarioId {
    pub fn as_str(self) -> (r: &'static str)
        ensures
            r@ == (match self {
                CollisionPerfScenarioId::ClusteredSwarm1k => "collision_clustered_swarm_1k"@,
                CollisionPerfScenarioId::ClusteredSwarm5k => "collision_clustered_swarm_5k"@,
            }),
    {
        match self {
            CollisionPerfScenarioId::ClusteredSwarm1k => "collision_clustered_swarm_1k",
            CollisionPerfScenarioId::ClusteredSwarm5k => "collision_clustered_swarm_5k",
        }
    }
}

#[derive(Debug, Clone, Copy, PartialEq, Eq, Structural)]
pub struct CollisionPerfScenario {
    pub id: CollisionPerfScenarioId,
    pub body_count: usize,
    pub cluster_count: usize,
    pub cell_size_mm: i32,
    pub radius_mm: i32,
    pub max_iterations: usize,
}

/// The collision smoke scenarios: clustered swarms of 1,000 and 5,000 bodies.
pub fn collision_perf_scenarios() -> (r: Vec<CollisionPerfScenario>)
    ensures
        r@ == seq![
            CollisionPerfScenario {
                id: CollisionPerfScenarioId::ClusteredSwarm1k,
                body_count: 1_000,
                cluster_count: 50,
                cell_size_mm: 2_000,
                radius_mm: 350,
                max_iterations: 2,
            },
            CollisionPerfScenario {
                id: CollisionPerfScenarioId::ClusteredSwarm5k,
                body_count: 5_000,
                cluster_count: 250,
                cell_size_mm: 2_000,
                radius_mm: 350,
                max_iterations: 2,
            },
        ],
{
    vec![
        CollisionPerfScenario {
            id: CollisionPerfScenarioId::ClusteredSwarm1k,
            body_count: 1_000,
            cluster_count: 50,
            cell_size_mm: 2_000,
            radius_mm: 350,
            max_iterations: 2,
        },
        CollisionPerfScenario {
            id: CollisionPerfScenarioId::ClusteredSwarm5k,
            body_count: 5_000,
            cluster_count: 250,
            cell_size_mm: 2_000,
            radius_mm: 350,
            max_iterations: 2,
        },
    ]
}

#[derive(Debug, Clone, Copy, PartialEq, Eq)]
pub struct CollisionPerfRun {
    pub scenario_id: CollisionPerfScenarioId,
    pub body_count: usize,
    pub cluster_count: usize,
    pub resolved_admission_check_count: usize,
    pub resolved_admission_accepted_after_resolution_count: usize,
    pub resolved_admission_rejected_count: usize,
    pub static_obstacle_resolution_check_count: usize,
    pub static_obstacle_correction_count: usize,
    pub clamped_resolution_check_count: usize,
    pub clamped_correction_limit_abs_mm: u32,
    pub clamped_correction_count: usize,
    pub clamped_max_applied_correction_abs_mm: u32,
    pub initial_contact_count: usize,
    pub iterations_requested: usize,
    pub iterations_run: usize,
    pub applied_correction_count: usize,
    pub applied_correction_abs_mm_total: u64,
    pub max_applied_correction_abs_mm: u32,
    pub final_contact_count: usize,
    pub elapsed_us: u64,
    pub budget_result: &'static str,
    pub claim_scope: &'static str,
}

#[verifier::external_type_specification]
#[verifier::external_body]
pub struct ExInstant(std::time::Instant);

#[derive(Debug, Clone, Copy, PartialEq, Eq, Structural)]
pub struct CollisionCorrection {
    pub entity_id: EntityId,
    pub dx_mm: i32,
    pub dy_mm: i32,
}

#[derive(Debug, Clone, PartialEq, Eq)]
pub struct CollisionResolutionPlan {
    pub contact_count: usize,
    pub corrections: Vec<CollisionCorrection>,
    pub claim_scope: &'static str,
}

#[derive(Debug, Clone, Copy, PartialEq, Eq)]
pub struct CollisionPhysicsStep {
    pub initial_contact_count: usize,
    pub iterations_requested: usize,
    pub iterations_run: usize,
    pub applied_correction_count: usize,
    pub applied_correction_abs_mm_total: u64,
    pub max_applied_correction_abs_mm: u32,
    pub correction_limit_abs_mm: Option<u32>,
    pub clamped_correction_count: usize,
    pub final_contact_count: usize,
    pub resolved: bool,
    pub claim_scope: &'static str,
}

#[derive(Debug, Clone, Copy, PartialEq, Eq)]
struct AppliedCollisionCorrections {
    applied_correction_count: usize,
    applied_correction_abs_mm_total: u64,
    max_applied_correction_abs_mm: u32,
    clamped_correction_count: usize,
}

#[derive(Debug, Clone, Copy, PartialEq, Eq)]
pub enum CollisionError {
    InvalidCellSize,
    InvalidRadius,
}

/// Squared distance between two positions.
pub open spec fn dist_sq(p: WorldPosition, q: WorldPosition) -> int {
    (q.x_mm - p.x_mm) * (q.x_mm - p.x_mm) + (q.y_mm - p.y_mm) * (q.y_mm - p.y_mm)
}

/// The distance at which two circles touch: the sum of their radii, saturating in `i32`.
pub open spec fn reach_mm(r1: i32, r2: i32) -> int {
    clamp_i32(r1 + r2)
}

/// Whether two circles overlap or touch.
pub open spec fn within_reach(p: WorldPosition, r1: i32, q: WorldPosition, r2: i32) -> bool {
    dist_sq(p, q) <= reach_mm(r1, r2) * reach_mm(r1, r2)
}

/// Whether two grid cells are equal or neighbours (including diagonals).
pub open spec fn cells_adjacent(a: SpatialCell, b: SpatialCell) -> bool {
    -1 <= a.x - b.x <= 1 && -1 <= a.y - b.y <= 1
}

/// `r` is the integer square root of `v`, rounded down.
pub open spec fn is_floor_sqrt(v: int, r: int) -> bool {
    0 <= r && r * r <= v && v < (r + 1) * (r + 1)
}

/// The integer square root of `v`, rounded down.
pub closed spec fn floor_sqrt(v: int) -> int {
    choose|r: int| is_floor_sqrt(v, r)
}

/// The floor square root is unique.
pub proof fn lemma_floor_sqrt(v: int, r: int)
    requires
        is_floor_sqrt(v, r),
    ensures
        floor_sqrt(v) == r,
{
    let c = choose|r: int| is_floor_sqrt(v, r);
    assert(is_floor_sqrt(v, c));
    if c < r {
        assert((c + 1) * (c + 1) <= r * r) by (nonlinear_arith)
            requires
                0 <= c < r,
        ;
    } else if c > r {
        assert((r + 1) * (r + 1) <= c * c) by (nonlinear_arith)
            requires
                0 <= r < c,
        ;
    }
}

/// The contact record of two bodies.
pub open spec fn contact_of(a: CollisionBody, b: CollisionBody) -> CollisionContact {
    let reach = reach_mm(a.radius_mm, b.radius_mm);
    let root = floor_sqrt(dist_sq(a.position, b.position));
    CollisionContact {
        a: a.entity_id,
        b: b.entity_id,
        distance_sq_mm: dist_sq(a.position, b.position) as u64,
        min_distance_mm: reach as i32,
        overlap_mm: clamp_i32(reach - (if root > i32::MAX { i32::MAX as int } else { root })) as i32,
    }
}

/// Two bodies in neighbouring grid cells whose circles overlap or touch.
pub open spec fn in_contact(a: CollisionBody, b: CollisionBody, cell_size_mm: int) -> bool {
    cells_adjacent(cell_of(a.position, cell_size_mm), cell_of(b.position, cell_size_mm))
        && within_reach(a.position, a.radius_mm, b.position, b.radius_mm)
}

/// Bodies ordered by strictly increasing entity id.
pub open spec fn ids_increasing(s: Seq<CollisionBody>) -> bool {
    forall|i: int, j: int| 0 <= i < j < s.len() ==> s[i].entity_id.0 < s[j].entity_id.0
}

/// Whether some body carries the given id.
pub open spec fn has_body(s: Seq<CollisionBody>, id: EntityId) -> bool {
    exists|i: int| 0 <= i < s.len() && s[i].entity_id == id
}

/// The position of the body with the given id.
pub open spec fn index_of(s: Seq<CollisionBody>, id: EntityId) -> int {
    choose|i: int| 0 <= i < s.len() && s[i].entity_id == id
}

/// The body with the given id, if any.
pub open spec fn body_of(s: Seq<CollisionBody>, id: EntityId) -> Option<CollisionBody> {
    if has_body(s, id) {
        Some(s[index_of(s, id)])
    } else {
        None
    }
}

/// The bodies of a world, keyed by entity id.
pub open spec fn body_map(s: Seq<CollisionBody>) -> Map<EntityId, CollisionBody> {
    Map::new(|id: EntityId| has_body(s, id), |id: EntityId| s[index_of(s, id)])
}

/// In an id-ordered body sequence, an id is found exactly where it is stored.
pub proof fn lemma_index_of(s: Seq<CollisionBody>, i: int)
    requires
        ids_increasing(s),
        0 <= i < s.len(),
    ensures
        has_body(s, s[i].entity_id),
        index_of(s, s[i].entity_id) == i,
        body_of(s, s[i].entity_id) == Some(s[i]),
{
    assert(s[i].entity_id == s[i].entity_id);
    let j = index_of(s, s[i].entity_id);
    assert(0 <= j < s.len() && s[j].entity_id == s[i].entity_id);
    if j < i {
        assert(s[j].entity_id.0 < s[i].entity_id.0);
    } else if j > i {
        assert(s[i].entity_id.0 < s[j].entity_id.0);
    }
}

/// Contacts of body `i` with the bodies `i+1 .. j`, in order.
pub open spec fn row_contacts(s: Seq<CollisionBody>, cell_size_mm: int, i: int, j: int) -> Seq<CollisionContact>
    decreases j - i,
{
    if j <= i + 1 {
        Seq::empty()
    } else {
        let prev = row_contacts(s, cell_size_mm, i, j - 1);
        if in_contact(s[i], s[j - 1], cell_size_mm) {
            prev.push(contact_of(s[i], s[j - 1]))
        } else {
            prev
        }
    }
}

/// Contacts whose first body lies before position `i`, ordered by the pair of positions.
pub open spec fn contacts_before(s: Seq<CollisionBody>, cell_size_mm: int, i: int) -> Seq<CollisionContact>
    decreases i,
{
    if i <= 0 {
        Seq::empty()
    } else {
        contacts_before(s, cell_size_mm, i - 1) + row_contacts(s, cell_size_mm, i - 1, s.len() as int)
    }
}

/// All contacts of a world, ordered by the ids of the two bodies.
pub open spec fn overlap_contacts(s: Seq<CollisionBody>, cell_size_mm: int) -> Seq<CollisionContact> {
    contacts_before(s, cell_size_mm, s.len() as int)
}

/// Ids of the bodies, other than `excluded`, whose circles reach a circle at `position`, in id order.
pub open spec fn overlap_ids(
    s: Seq<CollisionBody>,
    position: WorldPosition,
    radius_mm: i32,
    excluded: Option<EntityId>,
) -> Seq<EntityId>
    decreases s.len(),
{
    if s.len() == 0 {
        Seq::empty()
    } else {
        let prev = overlap_ids(s.drop_last(), position, radius_mm, excluded);
        let b = s.last();
        if excluded != Some(b.entity_id) && within_reach(position, radius_mm, b.position, b.radius_mm) {
            prev.push(b.entity_id)
        } else {
            prev
        }
    }
}

/// The ids that block a known body from standing at `target`.
pub open spec fn admission_blocking(s: Seq<CollisionBody>, id: EntityId, target: WorldPosition) -> Seq<EntityId> {
    match body_of(s, id) {
        None => Seq::empty(),
        Some(b) => overlap_ids(s, target, b.radius_mm, Some(id)),
    }
}

/// Whether a body may stand at `target` as the world is.
pub open spec fn admission_result(s: Seq<CollisionBody>, id: EntityId, target: WorldPosition) -> CollisionAdmissionResult {
    match body_of(s, id) {
        None => CollisionAdmissionResult::UnknownBody,
        Some(_) => if admission_blocking(s, id, target).len() == 0 {
            CollisionAdmissionResult::Accepted
        } else {
            CollisionAdmissionResult::RejectedOverlap
        },
    }
}


/// The bodies with the body `id` moved to `target`.
pub open spec fn relocated(s: Seq<CollisionBody>, id: EntityId, target: WorldPosition) -> Seq<CollisionBody> {
    let i = index_of(s, id);
    s.update(i, CollisionBody { position: target, ..s[i] })
}

/// The resolution rounds run when a move is rejected: up to `max_iterations` rounds on the
/// world with the body moved to `target`.
pub open spec fn admission_trace(
    s: Seq<CollisionBody>,
    cell_size_mm: int,
    id: EntityId,
    target: WorldPosition,
    max_iterations: usize,
    limit: Option<u32>,
) -> (Seq<CollisionBody>, int, int, int, int, int, bool) {
    resolution_trace(relocated(s, id, target), cell_size_mm, limit, max_iterations as nat)
}

/// Where the body ends up after a move with local resolution.
pub open spec fn resolved_position_of(
    s: Seq<CollisionBody>,
    cell_size_mm: int,
    id: EntityId,
    target: WorldPosition,
    max_iterations: usize,
    limit: Option<u32>,
) -> Option<WorldPosition> {
    match admission_result(s, id, target) {
        CollisionAdmissionResult::UnknownBody => None,
        CollisionAdmissionResult::Accepted => Some(target),
        CollisionAdmissionResult::RejectedOverlap => match body_of(admission_trace(s, cell_size_mm, id, target, max_iterations, limit).0, id) {
            Some(b) => Some(b.position),
            None => None,
        },
    }
}

/// The bodies that still block the moved body after local resolution.
pub open spec fn resolved_blocking(
    s: Seq<CollisionBody>,
    cell_size_mm: int,
    id: EntityId,
    target: WorldPosition,
    max_iterations: usize,
    limit: Option<u32>,
) -> Seq<EntityId> {
    let t = admission_trace(s, cell_size_mm, id, target, max_iterations, limit);
    match admission_result(s, id, target) {
        CollisionAdmissionResult::RejectedOverlap => match body_of(t.0, id) {
            Some(b) => overlap_ids(t.0, b.position, b.radius_mm, Some(id)),
            None => Seq::empty(),
        },
        _ => Seq::empty(),
    }
}

/// The outcome of a move with local resolution.
pub open spec fn resolved_result(
    s: Seq<CollisionBody>,
    cell_size_mm: int,
    id: EntityId,
    target: WorldPosition,
    max_iterations: usize,
    limit: Option<u32>,
) -> CollisionResolvedAdmissionResult {
    let t = admission_trace(s, cell_size_mm, id, target, max_iterations, limit);
    match admission_result(s, id, target) {
        CollisionAdmissionResult::UnknownBody => CollisionResolvedAdmissionResult::UnknownBody,
        CollisionAdmissionResult::Accepted => CollisionResolvedAdmissionResult::Accepted,
        CollisionAdmissionResult::RejectedOverlap => match body_of(t.0, id) {
            None => CollisionResolvedAdmissionResult::UnknownBody,
            Some(b) => if overlap_ids(t.0, b.position, b.radius_mm, Some(id)).len() == 0 {
                CollisionResolvedAdmissionResult::AcceptedAfterResolution
            } else {
                CollisionResolvedAdmissionResult::RejectedStillOverlapping
            },
        },
    }
}

/// (rounds run, applied count, total size, largest size, clamped count, contacts left) of a
/// move with local resolution; a move that needs no resolution runs no round.
pub open spec fn resolved_stats(
    s: Seq<CollisionBody>,
    cell_size_mm: int,
    id: EntityId,
    target: WorldPosition,
    max_iterations: usize,
    limit: Option<u32>,
) -> (int, int, int, int, int, int) {
    let t = admission_trace(s, cell_size_mm, id, target, max_iterations, limit);
    if admission_result(s, id, target) == CollisionAdmissionResult::RejectedOverlap {
        (t.1, clamp_usize(t.2), clamp_u64(t.3), t.4, clamp_usize(t.5), overlap_contacts(t.0, cell_size_mm).len() as int)
    } else {
        (0, 0, 0, 0, 0, overlap_contacts(s, cell_size_mm).len() as int)
    }
}

/// A resolved admission report describes the move of `id` to `target`.
pub open spec fn resolved_admission_matches(
    r: CollisionResolvedAdmission,
    s: Seq<CollisionBody>,
    cell_size_mm: int,
    id: EntityId,
    target: WorldPosition,
    max_iterations: usize,
    limit: Option<u32>,
) -> bool {
    let st = resolved_stats(s, cell_size_mm, id, target, max_iterations, limit);
    &&& r.entity_id == id
    &&& r.requested_position == target
    &&& r.resolved_position == resolved_position_of(s, cell_size_mm, id, target, max_iterations, limit)
    &&& r.initial_result == admission_result(s, id, target)
    &&& r.initial_blocking_entity_ids@ == admission_blocking(s, id, target)
    &&& r.result == resolved_result(s, cell_size_mm, id, target, max_iterations, limit)
    &&& r.blocking_entity_ids@ == resolved_blocking(s, cell_size_mm, id, target, max_iterations, limit)
    &&& r.iterations_requested == max_iterations
    &&& r.iterations_run == st.0
    &&& r.applied_correction_count == st.1
    &&& r.applied_correction_abs_mm_total == st.2
    &&& r.max_applied_correction_abs_mm == st.3
    &&& r.clamped_correction_count == st.4
    &&& r.final_contact_count == st.5
    &&& r.correction_limit_abs_mm == limit
    &&& r.claim_scope@ == "resolved_admission_only"@
}

/// The delta between two positions, each axis saturating in `i32`.
pub open spec fn delta_between(from: WorldPosition, to: WorldPosition) -> MovementDelta {
    MovementDelta { dx_mm: clamp_i32(to.x_mm - from.x_mm) as i32, dy_mm: clamp_i32(to.y_mm - from.y_mm) as i32 }
}

/// The movement decision that a resolved admission result stands for.
pub open spec fn decision_for(r: CollisionResolvedAdmissionResult) -> CollisionMovementDecision {
    match r {
        CollisionResolvedAdmissionResult::Accepted => CollisionMovementDecision::Accepted,
        CollisionResolvedAdmissionResult::AcceptedAfterResolution => CollisionMovementDecision::Corrected,
        CollisionResolvedAdmissionResult::RejectedStillOverlapping => CollisionMovementDecision::Blocked,
        CollisionResolvedAdmissionResult::UnknownBody => CollisionMovementDecision::UnknownBody,
    }
}

/// The current position of a body, if known.
pub open spec fn from_position(s: Seq<CollisionBody>, id: EntityId) -> Option<WorldPosition> {
    match body_of(s, id) {
        Some(b) => Some(b.position),
        None => None,
    }
}

/// The delta from the body's position to where it ends up after a move with local resolution.
pub open spec fn resolved_delta_of(
    s: Seq<CollisionBody>,
    cell_size_mm: int,
    id: EntityId,
    target: WorldPosition,
    max_iterations: usize,
    limit: Option<u32>,
) -> Option<MovementDelta> {
    match (from_position(s, id), resolved_position_of(s, cell_size_mm, id, target, max_iterations, limit)) {
        (Some(f), Some(q)) => Some(delta_between(f, q)),
        _ => None,
    }
}

/// A movement probe describes the move of `id` to `target`.
pub open spec fn movement_probe_matches(
    p: CollisionMovementProbe,
    s: Seq<CollisionBody>,
    cell_size_mm: int,
    id: EntityId,
    target: WorldPosition,
    max_iterations: usize,
    limit: Option<u32>,
) -> bool {
    let st = resolved_stats(s, cell_size_mm, id, target, max_iterations, limit);
    let from = from_position(s, id);
    &&& p.entity_id == id
    &&& p.from == from
    &&& p.requested_position == target
    &&& p.resolved_position == resolved_position_of(s, cell_size_mm, id, target, max_iterations, limit)
    &&& p.requested_delta == (match from {
        Some(f) => Some(delta_between(f, target)),
        None => None,
    })
    &&& p.resolved_delta == resolved_delta_of(s, cell_size_mm, id, target, max_iterations, limit)
    &&& p.initial_result == admission_result(s, id, target)
    &&& p.resolved_result == resolved_result(s, cell_size_mm, id, target, max_iterations, limit)
    &&& p.decision == decision_for(resolved_result(s, cell_size_mm, id, target, max_iterations, limit))
    &&& p.initial_blocking_entity_ids@ == admission_blocking(s, id, target)
    &&& p.blocking_entity_ids@ == resolved_blocking(s, cell_size_mm, id, target, max_iterations, limit)
    &&& p.iterations_requested == max_iterations
    &&& p.iterations_run == st.0
    &&& p.applied_correction_count == st.1
    &&& p.applied_correction_abs_mm_total == st.2
    &&& p.max_applied_correction_abs_mm == st.3
    &&& p.clamped_correction_count == st.4
    &&& p.final_contact_count == st.5
    &&& p.correction_limit_abs_mm == limit
    &&& p.claim_scope@ == "movement_probe_only"@
}

/// The single-axis target of a slide along `axis`, when the delta moves along it.
pub open spec fn slide_target_for(from: WorldPosition, d: MovementDelta, axis: CollisionSlideAxis) -> Option<WorldPosition> {
    match axis {
        CollisionSlideAxis::X => if d.dx_mm != 0 {
            Some(WorldPosition { x_mm: clamp_i32(from.x_mm + d.dx_mm) as i32, y_mm: from.y_mm })
        } else {
            None
        },
        CollisionSlideAxis::Y => if d.dy_mm != 0 {
            Some(WorldPosition { x_mm: from.x_mm, y_mm: clamp_i32(from.y_mm + d.dy_mm) as i32 })
        } else {
            None
        },
    }
}

/// The slide targets to try: the dominant axis first, each target distinct from the start and
/// from the other target.
pub open spec fn slide_targets(from: WorldPosition, d: MovementDelta) -> Seq<(CollisionSlideAxis, WorldPosition)> {
    let first = if abs(d.dx_mm as int) >= abs(d.dy_mm as int) { CollisionSlideAxis::X } else { CollisionSlideAxis::Y };
    let second = if abs(d.dx_mm as int) >= abs(d.dy_mm as int) { CollisionSlideAxis::Y } else { CollisionSlideAxis::X };
    let a = match slide_target_for(from, d, first) {
        Some(t) => if t != from { seq![(first, t)] } else { Seq::empty() },
        None => Seq::empty(),
    };
    match slide_target_for(from, d, second) {
        Some(t) => if t != from && (a.len() == 0 || a[0].1 != t) { a.push((second, t)) } else { a },
        None => a,
    }
}

/// Whether a slide to `target` is taken: it is accepted or corrected and actually moves the body.
pub open spec fn slide_accepted(
    s: Seq<CollisionBody>,
    cell_size_mm: int,
    id: EntityId,
    target: WorldPosition,
    max_iterations: usize,
    limit: Option<u32>,
) -> bool {
    let dec = decision_for(resolved_result(s, cell_size_mm, id, target, max_iterations, limit));
    &&& (dec == CollisionMovementDecision::Accepted || dec == CollisionMovementDecision::Corrected)
    &&& match resolved_delta_of(s, cell_size_mm, id, target, max_iterations, limit) {
        Some(d) => d.dx_mm != 0 || d.dy_mm != 0,
        None => false,
    }
}

/// The slide targets tried when the direct move to `target` is blocked.
pub open spec fn tried_slides(
    s: Seq<CollisionBody>,
    cell_size_mm: int,
    id: EntityId,
    target: WorldPosition,
    max_iterations: usize,
    limit: Option<u32>,
) -> Seq<(CollisionSlideAxis, WorldPosition)> {
    let dec = decision_for(resolved_result(s, cell_size_mm, id, target, max_iterations, limit));
    match from_position(s, id) {
        Some(f) => if dec == CollisionMovementDecision::Blocked {
            let all = slide_targets(f, delta_between(f, target));
            if all.len() > 0 && slide_accepted(s, cell_size_mm, id, all[0].1, max_iterations, limit) {
                all.take(1)
            } else {
                all
            }
        } else {
            Seq::empty()
        },
        None => Seq::empty(),
    }
}

/// A slide probe describes the move of `id` to `target` and the slides tried when it is blocked.
pub open spec fn slide_probe_matches(
    r: CollisionMovementSlideProbe,
    s: Seq<CollisionBody>,
    cell_size_mm: int,
    id: EntityId,
    target: WorldPosition,
    max_iterations: usize,
    limit: Option<u32>,
) -> bool {
    let tried = tried_slides(s, cell_size_mm, id, target, max_iterations, limit);
    let taken = tried.len() > 0 && slide_accepted(s, cell_size_mm, id, tried.last().1, max_iterations, limit);
    let chosen = if taken { tried.last().1 } else { target };
    &&& r.entity_id == id
    &&& movement_probe_matches(r.requested_probe, s, cell_size_mm, id, target, max_iterations, limit)
    &&& r.attempt_count == tried.len()
    &&& r.attempts@.len() == tried.len()
    &&& forall|k: int| 0 <= k < tried.len() ==> (#[trigger] r.attempts@[k]).axis == tried[k].0
        && movement_probe_matches(r.attempts@[k].probe, s, cell_size_mm, id, tried[k].1, max_iterations, limit)
    &&& r.decision == decision_for(resolved_result(s, cell_size_mm, id, chosen, max_iterations, limit))
    &&& r.selected_axis == (if taken { Some(tried.last().0) } else { None })
    &&& r.selected_position == resolved_position_of(s, cell_size_mm, id, chosen, max_iterations, limit)
    &&& r.selected_delta == resolved_delta_of(s, cell_size_mm, id, chosen, max_iterations, limit)
    &&& r.claim_scope@ == "axis_slide_probe_only"@
}

/// The world with every known candidate moved to its target, in candidate order.
pub open spec fn batch_world(s: Seq<CollisionBody>, cands: Seq<CollisionBatchMovementCandidate>) -> Seq<CollisionBody>
    decreases cands.len(),
{
    if cands.len() == 0 {
        s
    } else {
        let w = batch_world(s, cands.drop_last());
        let c = cands.last();
        if has_body(s, c.entity_id) {
            w.update(index_of(w, c.entity_id), CollisionBody { position: c.target_position, ..s[index_of(s, c.entity_id)] })
        } else {
            w
        }
    }
}

/// Moving candidates keeps every body's id in place.
pub proof fn lemma_batch_world_ids(s: Seq<CollisionBody>, cands: Seq<CollisionBatchMovementCandidate>)
    requires
        ids_increasing(s),
    ensures
        batch_world(s, cands).len() == s.len(),
        forall|i: int| 0 <= i < s.len() ==> (#[trigger] batch_world(s, cands)[i]).entity_id == s[i].entity_id
            && batch_world(s, cands)[i].radius_mm == s[i].radius_mm,
    decreases cands.len(),
{
    if cands.len() > 0 {
        lemma_batch_world_ids(s, cands.drop_last());
        let w = batch_world(s, cands.drop_last());
        let c = cands.last();
        if has_body(s, c.entity_id) {
            let i = index_of(s, c.entity_id);
            let j = index_of(w, c.entity_id);
            assert(w[i].entity_id == c.entity_id);
            assert(0 <= j < w.len() && w[j].entity_id == c.entity_id);
            assert(s[j].entity_id == c.entity_id);
            assert forall|k: int| 0 <= k < s.len() implies (#[trigger] batch_world(s, cands)[k]).entity_id == s[k].entity_id
                && batch_world(s, cands)[k].radius_mm == s[k].radius_mm by {
                if k == j {
                    lemma_index_of(s, j);
                    assert(i == j);
                }
            }
        }
    }
}

/// The number of candidates whose body is known.
pub open spec fn known_count(s: Seq<CollisionBody>, cands: Seq<CollisionBatchMovementCandidate>) -> int
    decreases cands.len(),
{
    if cands.len() == 0 {
        0
    } else {
        known_count(s, cands.drop_last()) + (if has_body(s, cands.last().entity_id) { 1int } else { 0int })
    }
}

/// The number of candidates whose target overlaps another body as the world is.
pub open spec fn rejected_count(s: Seq<CollisionBody>, cands: Seq<CollisionBatchMovementCandidate>) -> int
    decreases cands.len(),
{
    if cands.len() == 0 {
        0
    } else {
        rejected_count(s, cands.drop_last()) + (if admission_result(s, cands.last().entity_id, cands.last().target_position)
            == CollisionAdmissionResult::RejectedOverlap { 1int } else { 0int })
    }
}

/// The world after a batch move: the candidates moved and resolved together, or the world
/// unchanged when no candidate is known.
pub open spec fn batch_final_world(
    s: Seq<CollisionBody>,
    cell_size_mm: int,
    cands: Seq<CollisionBatchMovementCandidate>,
    max_iterations: usize,
    limit: Option<u32>,
) -> Seq<CollisionBody> {
    if known_count(s, cands) > 0 {
        resolution_trace(batch_world(s, cands), cell_size_mm, limit, max_iterations as nat).0
    } else {
        s
    }
}

/// The outcome of one candidate of a batch move, judged in the resolved world `fw`.
pub open spec fn batch_result(s: Seq<CollisionBody>, fw: Seq<CollisionBody>, c: CollisionBatchMovementCandidate) -> CollisionResolvedAdmissionResult {
    match body_of(fw, c.entity_id) {
        None => CollisionResolvedAdmissionResult::UnknownBody,
        Some(rb) => if overlap_ids(fw, rb.position, rb.radius_mm, Some(c.entity_id)).len() == 0 {
            if admission_result(s, c.entity_id, c.target_position) == CollisionAdmissionResult::Accepted
                && rb.position == c.target_position {
                CollisionResolvedAdmissionResult::Accepted
            } else {
                CollisionResolvedAdmissionResult::AcceptedAfterResolution
            }
        } else {
            CollisionResolvedAdmissionResult::RejectedStillOverlapping
        },
    }
}

/// A batch sample describes one candidate of a batch move.
pub open spec fn batch_sample_matches(
    r: CollisionBatchMovementSample,
    s: Seq<CollisionBody>,
    fw: Seq<CollisionBody>,
    c: CollisionBatchMovementCandidate,
) -> bool {
    let from = from_position(s, c.entity_id);
    let result = batch_result(s, fw, c);
    &&& r.entity_id == c.entity_id
    &&& r.from == from
    &&& r.requested_position == c.target_position
    &&& r.requested_delta == (match from {
        Some(f) => Some(delta_between(f, c.target_position)),
        None => None,
    })
    &&& r.initial_result == admission_result(s, c.entity_id, c.target_position)
    &&& r.initial_blocking_entity_ids@ == admission_blocking(s, c.entity_id, c.target_position)
    &&& r.resolved_result == result
    &&& r.decision == decision_for(result)
    &&& match body_of(fw, c.entity_id) {
        None => r.resolved_position == None::<WorldPosition> && r.resolved_delta == None::<MovementDelta>
            && r.blocking_entity_ids@.len() == 0,
        Some(rb) => {
            &&& r.resolved_position == Some(rb.position)
            &&& r.resolved_delta == (match from {
                Some(f) => Some(delta_between(f, rb.position)),
                None => None,
            })
            &&& r.blocking_entity_ids@ == overlap_ids(fw, rb.position, rb.radius_mm, Some(c.entity_id))
        },
    }
}

/// The number of candidates of a batch move that end with decision `d`.
pub open spec fn decision_count(
    s: Seq<CollisionBody>,
    fw: Seq<CollisionBody>,
    cands: Seq<CollisionBatchMovementCandidate>,
    d: CollisionMovementDecision,
) -> int
    decreases cands.len(),
{
    if cands.len() == 0 {
        0
    } else {
        decision_count(s, fw, cands.drop_last(), d) + (if decision_for(batch_result(s, fw, cands.last())) == d { 1int } else { 0int })
    }
}

/// A batch report describes moving all candidates together and resolving the result.
pub open spec fn batch_report_matches(
    r: CollisionBatchMovementProbeReport,
    s: Seq<CollisionBody>,
    cell_size_mm: int,
    cands: Seq<CollisionBatchMovementCandidate>,
    max_iterations: usize,
    limit: Option<u32>,
) -> bool {
    let fw = batch_final_world(s, cell_size_mm, cands, max_iterations, limit);
    let t = resolution_trace(batch_world(s, cands), cell_size_mm, limit, max_iterations as nat);
    let known = known_count(s, cands) > 0;
    &&& r.candidate_count == cands.len()
    &&& r.samples@.len() == cands.len()
    &&& forall|k: int| 0 <= k < cands.len() ==> batch_sample_matches(#[trigger] r.samples@[k], s, fw, cands[k])
    &&& r.accepted_count == decision_count(s, fw, cands, CollisionMovementDecision::Accepted)
    &&& r.corrected_count == decision_count(s, fw, cands, CollisionMovementDecision::Corrected)
    &&& r.blocked_count == decision_count(s, fw, cands, CollisionMovementDecision::Blocked)
    &&& r.unknown_body_count == decision_count(s, fw, cands, CollisionMovementDecision::UnknownBody)
    &&& r.initial_rejected_count == rejected_count(s, cands)
    &&& r.iterations_requested == max_iterations
    &&& r.iterations_run == (if known { t.1 } else { 0 })
    &&& r.applied_correction_count == (if known { clamp_usize(t.2) } else { 0 })
    &&& r.applied_correction_abs_mm_total == (if known { clamp_u64(t.3) } else { 0 })
    &&& r.max_applied_correction_abs_mm == (if known { t.4 } else { 0 })
    &&& r.correction_limit_abs_mm == limit
    &&& r.clamped_correction_count == (if known { clamp_usize(t.5) } else { 0 })
    &&& r.final_contact_count == overlap_contacts(fw, cell_size_mm).len()
    &&& r.claim_scope@ == "batch_movement_probe_only"@
}

/// Squared distance between two positions, exactly.
fn distance_sq(p: WorldPosition, q: WorldPosition) -> (r: u128)
    ensures
        r == dist_sq(p, q),
{
    let dx: i64 = q.x_mm as i64 - p.x_mm as i64;
    let dy: i64 = q.y_mm as i64 - p.y_mm as i64;
    let ax: u128 = if dx < 0 { (-dx) as u128 } else { dx as u128 };
    let ay: u128 = if dy < 0 { (-dy) as u128 } else { dy as u128 };
    assert(ax * ax == dx * dx && ax * ax <= 0x1_0000_0000 * 0x1_0000_0000) by (nonlinear_arith)
        requires
            ax == dx || ax == -dx,
            ax <= 0x1_0000_0000,
    ;
    assert(ay * ay == dy * dy && ay * ay <= 0x1_0000_0000 * 0x1_0000_0000) by (nonlinear_arith)
        requires
            ay == dy || ay == -dy,
            ay <= 0x1_0000_0000,
    ;
    ax * ax + ay * ay
}

/// Square of the touching distance of two radii.
fn reach_sq(r1: i32, r2: i32) -> (r: (i32, i64))
    ensures
        r.0 == reach_mm(r1, r2),
        r.1 == reach_mm(r1, r2) * reach_mm(r1, r2),
        0 <= r.1 <= 0x4000_0000_0000_0000,
{
    let reach = sat_add_i32(r1, r2);
    let w: i64 = reach as i64;
    assert(w * w <= 0x8000_0000 * 0x8000_0000) by (nonlinear_arith)
        requires
            -0x8000_0000 <= w <= 0x7fff_ffff,
    ;
    assert(w * w >= 0) by (nonlinear_arith);
    assert(0x8000_0000 * 0x8000_0000 == 0x4000_0000_0000_0000int);
    (reach, w * w)
}

/// Whether two circles overlap or touch.
fn circles_reach(p: WorldPosition, r1: i32, q: WorldPosition, r2: i32) -> (r: bool)
    ensures
        r == within_reach(p, r1, q, r2),
{
    let d = distance_sq(p, q);
    let (_, limit) = reach_sq(r1, r2);
    d <= limit as u128
}

/// Integer square root rounded down, saturating at `i32::MAX`.
fn integer_sqrt(value: u64) -> (r: i32)
    ensures
        r == (if floor_sqrt(value as int) > i32::MAX { i32::MAX as int } else { floor_sqrt(value as int) }),
{
    let mut lo: u64 = 0;
    let mut hi: u64 = 0x1_0000_0000;
    assert(hi * hi > u64::MAX) by (nonlinear_arith)
        requires
            hi == 0x1_0000_0000u64,
    ;
    while hi - lo > 1
        invariant
            lo < hi <= 0x1_0000_0000,
            lo * lo <= value,
            value < hi * hi,
        decreases hi - lo,
    {
        let mid = lo + (hi - lo) / 2;
        assert(mid * mid <= 0xffff_ffff * 0xffff_ffff) by (nonlinear_arith)
            requires
                mid <= 0xffff_ffff,
        ;
        if mid * mid <= value {
            lo = mid;
        } else {
            hi = mid;
        }
    }
    proof {
        assert(is_floor_sqrt(value as int, lo as int));
        lemma_floor_sqrt(value as int, lo as int);
    }
    if lo > 0x7fff_ffff {
        i32::MAX
    } else {
        lo as i32
    }
}

/// The contact of two bodies in the given cells, when they are in contact.
fn contact_between(a: &CollisionBody, b: &CollisionBody, ca: SpatialCell, cb: SpatialCell, Ghost(cell_size_mm): Ghost<int>) -> (r: Option<CollisionContact>)
    requires
        cell_size_mm > 0,
        ca == cell_of(a.position, cell_size_mm),
        cb == cell_of(b.position, cell_size_mm),
    ensures
        r == (if in_contact(*a, *b, cell_size_mm) { Some(contact_of(*a, *b)) } else { None }),
{
    let ddx: i64 = ca.x as i64 - cb.x as i64;
    let ddy: i64 = ca.y as i64 - cb.y as i64;
    if ddx < -1 || ddx > 1 || ddy < -1 || ddy > 1 {
        return None;
    }
    let d = distance_sq(a.position, b.position);
    let (reach, limit) = reach_sq(a.radius_mm, b.radius_mm);
    if d > limit as u128 {
        return None;
    }
    let root = integer_sqrt(d as u64);
    Some(CollisionContact {
        a: a.entity_id,
        b: b.entity_id,
        distance_sq_mm: d as u64,
        min_distance_mm: reach,
        overlap_mm: sat_sub_i32(reach, root),
    })
}


/// A floor square root exists for every non-negative integer.
pub proof fn lemma_floor_sqrt_exists(v: int)
    requires
        v >= 0,
    ensures
        is_floor_sqrt(v, floor_sqrt(v)),
    decreases v,
{
    if v == 0 {
        assert(is_floor_sqrt(0, 0));
        lemma_floor_sqrt(0, 0);
    } else {
        lemma_floor_sqrt_exists(v - 1);
        let r = floor_sqrt(v - 1);
        if (r + 1) * (r + 1) == v {
            assert((r + 2) * (r + 2) == (r + 1) * (r + 1) + 2 * r + 3) by (nonlinear_arith);
            assert(is_floor_sqrt(v, r + 1));
            lemma_floor_sqrt(v, r + 1);
        } else {
            assert(is_floor_sqrt(v, r));
            lemma_floor_sqrt(v, r);
        }
    }
}

/// Two bodies with positive radii that are in contact overlap by a non-negative amount.
pub proof fn lemma_contact_overlap(a: CollisionBody, b: CollisionBody, cell_size_mm: int)
    requires
        a.radius_mm > 0,
        b.radius_mm > 0,
        in_contact(a, b, cell_size_mm),
    ensures
        contact_of(a, b).overlap_mm >= 0,
        contact_of(a, b).min_distance_mm > 0,
{
    let d = dist_sq(a.position, b.position);
    let reach = reach_mm(a.radius_mm, b.radius_mm);
    assert(d >= 0) by (nonlinear_arith)
        requires
            d == (b.position.x_mm - a.position.x_mm) * (b.position.x_mm - a.position.x_mm)
                + (b.position.y_mm - a.position.y_mm) * (b.position.y_mm - a.position.y_mm),
    ;
    lemma_floor_sqrt_exists(d);
    let root = floor_sqrt(d);
    if root > reach {
        assert(root * root > reach * reach) by (nonlinear_arith)
            requires
                root > reach,
                reach > 0,
        ;
    }
}

/// Every contact of a row of bodies with positive radii has a non-negative overlap.
pub proof fn lemma_row_contacts(s: Seq<CollisionBody>, cell_size_mm: int, i: int, j: int)
    requires
        forall|k: int| 0 <= k < s.len() ==> #[trigger] s[k].radius_mm > 0,
        0 <= i,
        j <= s.len(),
    ensures
        forall|k: int| 0 <= k < row_contacts(s, cell_size_mm, i, j).len() ==>
            (#[trigger] row_contacts(s, cell_size_mm, i, j)[k]).overlap_mm >= 0,
    decreases j - i,
{
    if j > i + 1 {
        lemma_row_contacts(s, cell_size_mm, i, j - 1);
        if in_contact(s[i], s[j - 1], cell_size_mm) {
            lemma_contact_overlap(s[i], s[j - 1], cell_size_mm);
        }
        let prev = row_contacts(s, cell_size_mm, i, j - 1);
        let row = row_contacts(s, cell_size_mm, i, j);
        assert forall|k: int| 0 <= k < row.len() implies (#[trigger] row[k]).overlap_mm >= 0 by {
            if k < prev.len() {
                assert(row[k] == prev[k]);
            }
        }
    }
}

/// Every contact found before body `i` has a non-negative overlap.
pub proof fn lemma_contacts_before(s: Seq<CollisionBody>, cell_size_mm: int, i: int)
    requires
        forall|k: int| 0 <= k < s.len() ==> #[trigger] s[k].radius_mm > 0,
        i <= s.len(),
    ensures
        forall|k: int| 0 <= k < contacts_before(s, cell_size_mm, i).len() ==>
            (#[trigger] contacts_before(s, cell_size_mm, i)[k]).overlap_mm >= 0,
    decreases i,
{
    if i > 0 {
        lemma_contacts_before(s, cell_size_mm, i - 1);
        lemma_row_contacts(s, cell_size_mm, i - 1, s.len() as int);
        let prev = contacts_before(s, cell_size_mm, i - 1);
        let row = row_contacts(s, cell_size_mm, i - 1, s.len() as int);
        let all = contacts_before(s, cell_size_mm, i);
        assert(all == prev + row);
        assert forall|k: int| 0 <= k < all.len() implies (#[trigger] all[k]).overlap_mm >= 0 by {
            if k < prev.len() {
                assert(all[k] == prev[k]);
            } else {
                assert(all[k] == row[k - prev.len()]);
            }
        }
    }
}

/// Every contact of a valid world has a non-negative overlap.
pub proof fn lemma_contacts_overlap(s: Seq<CollisionBody>, cell_size_mm: int)
    requires
        forall|i: int| 0 <= i < s.len() ==> #[trigger] s[i].radius_mm > 0,
    ensures
        forall|k: int| 0 <= k < overlap_contacts(s, cell_size_mm).len() ==>
            (#[trigger] overlap_contacts(s, cell_size_mm)[k]).overlap_mm >= 0,
{
    lemma_contacts_before(s, cell_size_mm, s.len() as int);
}

/// The push direction between two bodies: along the dominant axis from the first body to the
/// second, or along x by id order when they share a position.
pub open spec fn push_axis(first: CollisionBody, second: CollisionBody) -> (int, int) {
    let dx = clamp_i32(second.position.x_mm - first.position.x_mm);
    let dy = clamp_i32(second.position.y_mm - first.position.y_mm);
    if dx == 0 && dy == 0 {
        if first.entity_id.0 <= second.entity_id.0 {
            (1, 0)
        } else {
            (-1, 0)
        }
    } else if abs(dx) >= abs(dy) {
        (sign(dx), 0)
    } else {
        (0, sign(dy))
    }
}

/// How far each body of a pair is pushed: static obstacles never move, a movable body facing a
/// static one takes the whole separation, and two movable bodies split it.
pub open spec fn push_shares(first: CollisionBody, second: CollisionBody, overlap_mm: i32) -> (int, int) {
    let separation = clamp_i32(overlap_mm + 1);
    let first_static = first.kind == CollisionBodyKind::StaticObstacle;
    let second_static = second.kind == CollisionBodyKind::StaticObstacle;
    if first_static && second_static {
        (0, 0)
    } else if first_static {
        (0, separation)
    } else if second_static {
        (separation, 0)
    } else {
        let first_push = separation / 2;
        (first_push, clamp_i32(separation - first_push))
    }
}

/// The corrections that separate a pair of overlapping bodies.
pub open spec fn pair_corrections(first: CollisionBody, second: CollisionBody, overlap_mm: i32) -> (CollisionCorrection, CollisionCorrection) {
    let axis = push_axis(first, second);
    let shares = push_shares(first, second, overlap_mm);
    (
        CollisionCorrection {
            entity_id: first.entity_id,
            dx_mm: (-axis.0 * shares.0) as i32,
            dy_mm: (-axis.1 * shares.0) as i32,
        },
        CollisionCorrection {
            entity_id: second.entity_id,
            dx_mm: (axis.0 * shares.1) as i32,
            dy_mm: (axis.1 * shares.1) as i32,
        },
    )
}

/// The push that one contact contributes to the body with id `id`.
pub open spec fn push_from(s: Seq<CollisionBody>, c: CollisionContact, id: EntityId) -> (int, int) {
    match (body_of(s, c.a), body_of(s, c.b)) {
        (Some(first), Some(second)) => {
            let p = pair_corrections(first, second, c.overlap_mm);
            (
                (if c.a == id { p.0.dx_mm as int } else { 0 }) + (if c.b == id { p.1.dx_mm as int } else { 0 }),
                (if c.a == id { p.0.dy_mm as int } else { 0 }) + (if c.b == id { p.1.dy_mm as int } else { 0 }),
            )
        },
        _ => (0, 0),
    }
}

/// The total push that a list of contacts gives the body with id `id`.
pub open spec fn summed_push(s: Seq<CollisionBody>, cs: Seq<CollisionContact>, id: EntityId) -> (int, int)
    decreases cs.len(),
{
    if cs.len() == 0 {
        (0, 0)
    } else {
        let prev = summed_push(s, cs.drop_last(), id);
        let p = push_from(s, cs.last(), id);
        (prev.0 + p.0, prev.1 + p.1)
    }
}

/// The planned correction of one body: its total push, saturated into `i32`.
pub open spec fn planned_for(s: Seq<CollisionBody>, cs: Seq<CollisionContact>, b: CollisionBody) -> CollisionCorrection {
    let t = summed_push(s, cs, b.entity_id);
    CollisionCorrection { entity_id: b.entity_id, dx_mm: clamp_i32(t.0) as i32, dy_mm: clamp_i32(t.1) as i32 }
}

/// The non-zero planned corrections of the first `n` bodies, in id order.
pub open spec fn planned_prefix(s: Seq<CollisionBody>, cs: Seq<CollisionContact>, n: int) -> Seq<CollisionCorrection>
    decreases n,
{
    if n <= 0 {
        Seq::empty()
    } else {
        let prev = planned_prefix(s, cs, n - 1);
        let c = planned_for(s, cs, s[n - 1]);
        if c.dx_mm != 0 || c.dy_mm != 0 {
            prev.push(c)
        } else {
            prev
        }
    }
}

/// The corrections that resolve the contacts of a world, in id order.
pub open spec fn planned_corrections(s: Seq<CollisionBody>, cell_size_mm: int) -> Seq<CollisionCorrection> {
    planned_prefix(s, overlap_contacts(s, cell_size_mm), s.len() as int)
}

/// The size of a correction: the sum of its absolute components, saturating in `u32`.
pub open spec fn correction_abs(c: CollisionCorrection) -> int {
    let t = abs(c.dx_mm as int) + abs(c.dy_mm as int);
    if t > u32::MAX {
        u32::MAX as int
    } else {
        t
    }
}

/// One component scaled by `limit / total`, rounded down.
pub open spec fn scaled_component(component: int, total: int, limit: int) -> int {
    if component == 0 || total == 0 {
        0
    } else {
        (component * limit) / total
    }
}

/// A correction scaled down so that its size does not exceed `limit`; a non-zero correction
/// keeps a unit step along its dominant axis when scaling would erase it.
pub open spec fn limited_correction(c: CollisionCorrection, limit: u32) -> CollisionCorrection {
    let total = correction_abs(c);
    if total <= limit {
        c
    } else if limit == 0 {
        CollisionCorrection { entity_id: c.entity_id, dx_mm: 0, dy_mm: 0 }
    } else {
        let dx = sign(c.dx_mm as int) * scaled_component(abs(c.dx_mm as int), total, limit as int);
        let dy = sign(c.dy_mm as int) * scaled_component(abs(c.dy_mm as int), total, limit as int);
        if dx == 0 && dy == 0 {
            if abs(c.dx_mm as int) >= abs(c.dy_mm as int) {
                CollisionCorrection { entity_id: c.entity_id, dx_mm: sign(c.dx_mm as int) as i32, dy_mm: 0 }
            } else {
                CollisionCorrection { entity_id: c.entity_id, dx_mm: 0, dy_mm: sign(c.dy_mm as int) as i32 }
            }
        } else {
            CollisionCorrection { entity_id: c.entity_id, dx_mm: dx as i32, dy_mm: dy as i32 }
        }
    }
}

/// The correction actually applied under an optional size limit.
pub open spec fn effective_correction(c: CollisionCorrection, limit: Option<u32>) -> CollisionCorrection {
    match limit {
        Some(l) => limited_correction(c, l),
        None => c,
    }
}

/// A body moved by a correction, each axis saturating in `i32`.
pub open spec fn corrected_body(b: CollisionBody, c: CollisionCorrection) -> CollisionBody {
    CollisionBody {
        position: WorldPosition {
            x_mm: clamp_i32(b.position.x_mm + c.dx_mm) as i32,
            y_mm: clamp_i32(b.position.y_mm + c.dy_mm) as i32,
        },
        ..b
    }
}

/// Applies one correction to (bodies, applied count, total size, largest size, clamped count).
pub open spec fn apply_one(
    st: (Seq<CollisionBody>, int, int, int, int),
    c: CollisionCorrection,
    limit: Option<u32>,
) -> (Seq<CollisionBody>, int, int, int, int) {
    let e = effective_correction(c, limit);
    if !has_body(st.0, c.entity_id) || (e.dx_mm == 0 && e.dy_mm == 0) {
        st
    } else {
        let i = index_of(st.0, c.entity_id);
        let size = correction_abs(e);
        (
            st.0.update(i, corrected_body(st.0[i], e)),
            st.1 + 1,
            st.2 + size,
            if size > st.3 { size } else { st.3 },
            st.4 + (if size < correction_abs(c) { 1int } else { 0int }),
        )
    }
}

/// Applies a list of corrections in order.
pub open spec fn apply_all(s: Seq<CollisionBody>, cs: Seq<CollisionCorrection>, limit: Option<u32>) -> (Seq<CollisionBody>, int, int, int, int)
    decreases cs.len(),
{
    if cs.len() == 0 {
        (s, 0, 0, 0, 0)
    } else {
        apply_one(apply_all(s, cs.drop_last(), limit), cs.last(), limit)
    }
}

/// The state after `k` rounds of planning and applying corrections:
/// (bodies, rounds run, applied count, total size, largest size, clamped count, stopped).
/// A round stops the resolution when there is no contact or nothing to correct.
pub open spec fn resolution_trace(s: Seq<CollisionBody>, cell_size_mm: int, limit: Option<u32>, k: nat)
    -> (Seq<CollisionBody>, int, int, int, int, int, bool)
    decreases k,
{
    if k == 0 {
        (s, 0, 0, 0, 0, 0, false)
    } else {
        let prev = resolution_trace(s, cell_size_mm, limit, (k - 1) as nat);
        if prev.6 {
            prev
        } else {
            let plan = planned_corrections(prev.0, cell_size_mm);
            if overlap_contacts(prev.0, cell_size_mm).len() == 0 || plan.len() == 0 {
                (prev.0, prev.1, prev.2, prev.3, prev.4, prev.5, true)
            } else {
                let a = apply_all(prev.0, plan, limit);
                (a.0, prev.1 + 1, prev.2 + a.1, prev.3 + a.2, if a.3 > prev.4 { a.3 } else { prev.4 }, prev.5 + a.4, false)
            }
        }
    }
}

/// Two body lists hold the same ids in the same places.
pub open spec fn same_ids(a: Seq<CollisionBody>, b: Seq<CollisionBody>) -> bool {
    a.len() == b.len() && forall|i: int| 0 <= i < a.len() ==> #[trigger] a[i].entity_id == b[i].entity_id
}

/// Bodies with the same ids in the same places hold the same ids.
proof fn lemma_same_ids_has_body(a: Seq<CollisionBody>, b: Seq<CollisionBody>, id: EntityId)
    requires
        same_ids(a, b),
    ensures
        has_body(a, id) == has_body(b, id),
{
    if has_body(a, id) {
        let i = choose|i: int| 0 <= i < a.len() && a[i].entity_id == id;
        assert(b[i].entity_id == id);
    }
    if has_body(b, id) {
        let i = choose|i: int| 0 <= i < b.len() && b[i].entity_id == id;
        assert(a[i].entity_id == id);
    }
}

/// Applying corrections moves bodies and keeps their ids.
proof fn lemma_apply_all_ids(s: Seq<CollisionBody>, cs: Seq<CollisionCorrection>, limit: Option<u32>)
    ensures
        same_ids(s, apply_all(s, cs, limit).0),
    decreases cs.len(),
{
    if cs.len() > 0 {
        lemma_apply_all_ids(s, cs.drop_last(), limit);
    }
}

/// Resolution rounds move bodies and keep their ids, and run at most the rounds asked for.
pub proof fn lemma_trace_ids(s: Seq<CollisionBody>, cell_size_mm: int, limit: Option<u32>, k: nat)
    ensures
        same_ids(s, resolution_trace(s, cell_size_mm, limit, k).0),
        0 <= resolution_trace(s, cell_size_mm, limit, k).1 <= k,
    decreases k,
{
    if k > 0 {
        lemma_trace_ids(s, cell_size_mm, limit, (k - 1) as nat);
        let prev = resolution_trace(s, cell_size_mm, limit, (k - 1) as nat);
        lemma_apply_all_ids(prev.0, planned_corrections(prev.0, cell_size_mm), limit);
    }
}

/// What every resolved admission shows: it runs at most the rounds asked for; it is unknown
/// exactly when the body is, accepted exactly when the move needed no resolution (then at the
/// target, with no round run), and still rejected exactly when bodies still block it.
pub open spec fn resolved_admission_laws(r: CollisionResolvedAdmission, max_iterations: usize) -> bool {
    &&& r.iterations_run <= max_iterations
    &&& (r.result == CollisionResolvedAdmissionResult::UnknownBody <==> r.initial_result == CollisionAdmissionResult::UnknownBody)
    &&& (r.result == CollisionResolvedAdmissionResult::Accepted <==> r.initial_result == CollisionAdmissionResult::Accepted)
    &&& (r.result == CollisionResolvedAdmissionResult::Accepted ==> r.resolved_position == Some(r.requested_position)
        && r.iterations_run == 0)
    &&& (r.result == CollisionResolvedAdmissionResult::RejectedStillOverlapping <==> r.blocking_entity_ids@.len() > 0)
}

/// The resolved admission model satisfies the laws of every resolved admission.
pub proof fn lemma_resolved_admission_laws(
    r: CollisionResolvedAdmission,
    s: Seq<CollisionBody>,
    cell_size_mm: int,
    id: EntityId,
    target: WorldPosition,
    max_iterations: usize,
    limit: Option<u32>,
)
    requires
        resolved_admission_matches(r, s, cell_size_mm, id, target, max_iterations, limit),
    ensures
        resolved_admission_laws(r, max_iterations),
{
    let moved = relocated(s, id, target);
    lemma_trace_ids(moved, cell_size_mm, limit, max_iterations as nat);
    let t = admission_trace(s, cell_size_mm, id, target, max_iterations, limit);
    if has_body(s, id) {
        let i = index_of(s, id);
        assert(same_ids(s, moved)) by {
            assert forall|j: int| 0 <= j < s.len() implies #[trigger] s[j].entity_id == moved[j].entity_id by {}
        }
        lemma_same_ids_has_body(s, moved, id);
        lemma_same_ids_has_body(moved, t.0, id);
    }
}

/// Every candidate of a batch gets exactly one of the four decisions.
proof fn lemma_decision_counts_sum(s: Seq<CollisionBody>, fw: Seq<CollisionBody>, cands: Seq<CollisionBatchMovementCandidate>)
    ensures
        decision_count(s, fw, cands, CollisionMovementDecision::Accepted) + decision_count(
            s,
            fw,
            cands,
            CollisionMovementDecision::Corrected,
        ) + decision_count(s, fw, cands, CollisionMovementDecision::Blocked) + decision_count(
            s,
            fw,
            cands,
            CollisionMovementDecision::UnknownBody,
        ) == cands.len(),
    decreases cands.len(),
{
    if cands.len() > 0 {
        lemma_decision_counts_sum(s, fw, cands.drop_last());
    }
}

/// What every batch probe report shows: one sample per candidate, in order, each for its
/// candidate's body and target; a sample is for an unknown body exactly when the world has no
/// body with its id; and the four decision counts add up to the candidates.
pub open spec fn batch_report_laws(r: CollisionBatchMovementProbeReport, s: Seq<CollisionBody>, cands: Seq<CollisionBatchMovementCandidate>) -> bool {
    &&& r.candidate_count == r.samples@.len()
    &&& r.samples@.len() == cands.len()
    &&& forall|i: int|
        0 <= i < cands.len() ==> {
            &&& (#[trigger] r.samples@[i]).entity_id == cands[i].entity_id
            &&& r.samples@[i].requested_position == cands[i].target_position
            &&& (r.samples@[i].decision == CollisionMovementDecision::UnknownBody <==> !has_body(s, cands[i].entity_id))
        }
    &&& r.accepted_count + r.corrected_count + r.blocked_count + r.unknown_body_count == r.candidate_count
}

/// The batch probe model satisfies the laws of every batch probe report.
pub proof fn lemma_batch_report_laws(
    r: CollisionBatchMovementProbeReport,
    s: Seq<CollisionBody>,
    cell_size_mm: int,
    cands: Seq<CollisionBatchMovementCandidate>,
    max_iterations: usize,
    limit: Option<u32>,
)
    requires
        ids_increasing(s),
        batch_report_matches(r, s, cell_size_mm, cands, max_iterations, limit),
    ensures
        batch_report_laws(r, s, cands),
{
    let fw = batch_final_world(s, cell_size_mm, cands, max_iterations, limit);
    lemma_decision_counts_sum(s, fw, cands);
    lemma_batch_world_ids(s, cands);
    let bw = batch_world(s, cands);
    lemma_trace_ids(bw, cell_size_mm, limit, max_iterations as nat);
    assert(same_ids(s, fw)) by {
        if known_count(s, cands) > 0 {
            let t = resolution_trace(bw, cell_size_mm, limit, max_iterations as nat).0;
            assert forall|i: int| 0 <= i < s.len() implies #[trigger] s[i].entity_id == fw[i].entity_id by {
                assert(bw[i].entity_id == s[i].entity_id);
                assert(t[i].entity_id == bw[i].entity_id);
            }
        }
    }
    assert forall|i: int| 0 <= i < cands.len() implies (#[trigger] r.samples@[i]).decision == CollisionMovementDecision::UnknownBody
        <==> !has_body(s, cands[i].entity_id) by {
        assert(batch_sample_matches(r.samples@[i], s, fw, cands[i]));
        lemma_same_ids_has_body(s, fw, cands[i].entity_id);
    }
}

/// Ids in strictly ascending order.
pub open spec fn ids_ascending(ids: Seq<EntityId>) -> bool {
    forall|i: int, j: int| 0 <= i < j < ids.len() ==> ids[i].0 < ids[j].0
}

/// The bodies that overlap a circle are listed in the world's order, so in ascending id order
/// when the world is, and each is at most the world's largest id.
pub proof fn lemma_overlap_ids_ascending(s: Seq<CollisionBody>, position: WorldPosition, radius_mm: i32, excluded: Option<EntityId>)
    requires
        ids_increasing(s),
    ensures
        ids_ascending(overlap_ids(s, position, radius_mm, excluded)),
        forall|i: int|
            0 <= i < overlap_ids(s, position, radius_mm, excluded).len() ==> s.len() > 0
                && (#[trigger] overlap_ids(s, position, radius_mm, excluded)[i]).0 <= s.last().entity_id.0,
    decreases s.len(),
{
    if s.len() > 0 {
        let t = s.drop_last();
        assert(ids_increasing(t));
        lemma_overlap_ids_ascending(t, position, radius_mm, excluded);
        let prev = overlap_ids(t, position, radius_mm, excluded);
        assert forall|i: int| 0 <= i < prev.len() implies prev[i].0 < s.last().entity_id.0 by {
            assert(prev[i].0 <= t.last().entity_id.0);
            assert(s[s.len() - 2].entity_id.0 < s[s.len() - 1].entity_id.0);
        }
    }
}

/// A refused move lists the blocking bodies in ascending id order.
pub proof fn lemma_admission_blocking_ascending(s: Seq<CollisionBody>, id: EntityId, target: WorldPosition)
    requires
        ids_increasing(s),
    ensures
        ids_ascending(admission_blocking(s, id, target)),
{
    match body_of(s, id) {
        None => {},
        Some(b) => lemma_overlap_ids_ascending(s, target, b.radius_mm, Some(id)),
    }
}

/// Once the resolution has stopped, later rounds change nothing.
pub proof fn lemma_trace_stopped(s: Seq<CollisionBody>, cell_size_mm: int, limit: Option<u32>, k: nat, m: nat)
    requires
        k <= m,
        resolution_trace(s, cell_size_mm, limit, k).6,
    ensures
        resolution_trace(s, cell_size_mm, limit, m) == resolution_trace(s, cell_size_mm, limit, k),
    decreases m,
{
    if m > k {
        lemma_trace_stopped(s, cell_size_mm, limit, k, (m - 1) as nat);
    }
}

/// Moves one unit of `v` along the sign `u` (-1, 0 or 1).
fn signed_share(u: i32, v: i32) -> (r: i32)
    requires
        -1 <= u <= 1,
        v >= 0,
    ensures
        r == u * v,
{
    if u > 0 {
        assert(u == 1);
        v
    } else if u < 0 {
        assert(u == -1);
        -v
    } else {
        0
    }
}

/// The corrections that separate a pair of overlapping bodies.
fn correction_for_pair(first: CollisionBody, second: CollisionBody, overlap_mm: i32) -> (r: (CollisionCorrection, CollisionCorrection))
    requires
        overlap_mm >= 0,
    ensures
        r == pair_corrections(first, second, overlap_mm),
{
    let separation = sat_add_i32(overlap_mm, 1);
    let first_is_static = first.kind == CollisionBodyKind::StaticObstacle;
    let second_is_static = second.kind == CollisionBodyKind::StaticObstacle;
    let dx = sat_sub_i32(second.position.x_mm, first.position.x_mm);
    let dy = sat_sub_i32(second.position.y_mm, first.position.y_mm);
    let (ax, ay): (i32, i32) = if dx == 0 && dy == 0 {
        if first.entity_id.0 <= second.entity_id.0 {
            (1, 0)
        } else {
            (-1, 0)
        }
    } else if unsigned_abs_i32(dx) >= unsigned_abs_i32(dy) {
        (signum_i32(dx), 0)
    } else {
        (0, signum_i32(dy))
    };
    let (first_push, second_push): (i32, i32) = if first_is_static && second_is_static {
        (0, 0)
    } else if first_is_static {
        (0, separation)
    } else if second_is_static {
        (separation, 0)
    } else {
        let half = separation / 2;
        (half, sat_sub_i32(separation, half))
    };
    (
        CollisionCorrection {
            entity_id: first.entity_id,
            dx_mm: signed_share(-ax, first_push),
            dy_mm: signed_share(-ay, first_push),
        },
        CollisionCorrection {
            entity_id: second.entity_id,
            dx_mm: signed_share(ax, second_push),
            dy_mm: signed_share(ay, second_push),
        },
    )
}

/// The size of a correction.
fn correction_abs_mm(correction: &CollisionCorrection) -> (r: u32)
    ensures
        r == correction_abs(*correction),
{
    sat_add_u32(unsigned_abs_i32(correction.dx_mm), unsigned_abs_i32(correction.dy_mm))
}

/// One component scaled by `limit / total`, rounded down.
fn scaled_abs_component(component_abs: u32, total_abs: u32, limit_abs_mm: u32) -> (r: u32)
    requires
        component_abs <= total_abs,
    ensures
        r == scaled_component(component_abs as int, total_abs as int, limit_abs_mm as int),
        limit_abs_mm < total_abs ==> r < component_abs || component_abs == 0,
        r <= limit_abs_mm,
{
    if component_abs == 0 || total_abs == 0 {
        0
    } else {
        let c = component_abs as u64;
        let l = limit_abs_mm as u64;
        let t = total_abs as u64;
        assert(c * l <= 0xffff_ffff * 0xffff_ffff) by (nonlinear_arith)
            requires
                c <= 0xffff_ffff,
                l <= 0xffff_ffff,
        ;
        let q = (c * l) / t;
        assert(q <= l) by (nonlinear_arith)
            requires
                q as int == (c as int * l as int) / (t as int),
                0 < c <= t,
        ;
        assert(l < t ==> q < c) by (nonlinear_arith)
            requires
                q as int == (c as int * l as int) / (t as int),
                0 < c <= t,
        ;
        q as u32
    }
}

/// A correction scaled down to at most `limit_abs_mm`.
fn clamp_correction_abs_mm(correction: CollisionCorrection, limit_abs_mm: u32) -> (r: CollisionCorrection)
    ensures
        r == limited_correction(correction, limit_abs_mm),
{
    let correction_abs = correction_abs_mm(&correction);
    if correction_abs <= limit_abs_mm {
        return correction;
    }
    if limit_abs_mm == 0 {
        return CollisionCorrection { entity_id: correction.entity_id, dx_mm: 0, dy_mm: 0 };
    }
    let dx_abs = scaled_abs_component(unsigned_abs_i32(correction.dx_mm), correction_abs, limit_abs_mm);
    let dy_abs = scaled_abs_component(unsigned_abs_i32(correction.dy_mm), correction_abs, limit_abs_mm);
    let dx = signed_share(signum_i32(correction.dx_mm), dx_abs as i32);
    let dy = signed_share(signum_i32(correction.dy_mm), dy_abs as i32);
    if dx == 0 && dy == 0 {
        if unsigned_abs_i32(correction.dx_mm) >= unsigned_abs_i32(correction.dy_mm) {
            CollisionCorrection { entity_id: correction.entity_id, dx_mm: signum_i32(correction.dx_mm), dy_mm: 0 }
        } else {
            CollisionCorrection { entity_id: correction.entity_id, dx_mm: 0, dy_mm: signum_i32(correction.dy_mm) }
        }
    } else {
        CollisionCorrection { entity_id: correction.entity_id, dx_mm: dx, dy_mm: dy }
    }
}

/// Whether every body of a list has a positive radius.
pub open spec fn all_radii_positive(bs: Seq<CollisionBody>) -> bool {
    forall|i: int| 0 <= i < bs.len() ==> #[trigger] bs[i].radius_mm > 0
}

/// The bodies of a list keyed by id, a later body replacing an earlier one with the same id.
pub open spec fn inserted_map(bs: Seq<CollisionBody>) -> Map<EntityId, CollisionBody>
    decreases bs.len(),
{
    if bs.len() == 0 {
        Map::empty()
    } else {
        inserted_map(bs.drop_last()).insert(bs.last().entity_id, bs.last())
    }
}

/// The smaller of an integer and `usize::MAX`.
pub open spec fn clamp_usize(x: int) -> int {
    if x > usize::MAX {
        usize::MAX as int
    } else {
        x
    }
}

/// An `i128` clamped into the range of `i32`.
fn clamp_i128_to_i32(value: i128) -> (r: i32)
    ensures
        r == clamp_i32(value as int),
{
    if value > i32::MAX as i128 {
        i32::MAX
    } else if value < i32::MIN as i128 {
        i32::MIN
    } else {
        value as i32
    }
}

/// The delta between two positions, each axis saturating in `i32`.
fn movement_delta_between(from: WorldPosition, to: WorldPosition) -> (r: MovementDelta)
    ensures
        r == delta_between(from, to),
{
    MovementDelta { dx_mm: sat_sub_i32(to.x_mm, from.x_mm), dy_mm: sat_sub_i32(to.y_mm, from.y_mm) }
}

/// The single-axis slide targets of a blocked move, the dominant axis first.
fn axis_slide_targets(from: WorldPosition, requested_delta: MovementDelta) -> (r: Vec<(CollisionSlideAxis, WorldPosition)>)
    ensures
        r@ == slide_targets(from, requested_delta),
{
    let x_first = unsigned_abs_i32(requested_delta.dx_mm) >= unsigned_abs_i32(requested_delta.dy_mm);
    let first = if x_first { CollisionSlideAxis::X } else { CollisionSlideAxis::Y };
    let second = if x_first { CollisionSlideAxis::Y } else { CollisionSlideAxis::X };
    let mut targets: Vec<(CollisionSlideAxis, WorldPosition)> = Vec::new();
    match slide_target(from, requested_delta, first) {
        Some(t) => {
            if t != from {
                targets.push((first, t));
            }
        },
        None => {},
    }
    match slide_target(from, requested_delta, second) {
        Some(t) => {
            let duplicate = targets.len() > 0 && targets[0].1 == t;
            if t != from && !duplicate {
                targets.push((second, t));
            }
        },
        None => {},
    }
    proof {
        let a = match slide_target_for(from, requested_delta, first) {
            Some(t) => if t != from { seq![(first, t)] } else { Seq::empty() },
            None => Seq::empty(),
        };
        assert(a.len() <= 1);
    }
    targets
}

/// The single-axis target of a slide along `axis`.
fn slide_target(from: WorldPosition, d: MovementDelta, axis: CollisionSlideAxis) -> (r: Option<WorldPosition>)
    ensures
        r == slide_target_for(from, d, axis),
{
    match axis {
        CollisionSlideAxis::X => if d.dx_mm != 0 {
            Some(WorldPosition { x_mm: sat_add_i32(from.x_mm, d.dx_mm), y_mm: from.y_mm })
        } else {
            None
        },
        CollisionSlideAxis::Y => if d.dy_mm != 0 {
            Some(WorldPosition { x_mm: from.x_mm, y_mm: sat_add_i32(from.y_mm, d.dy_mm) })
        } else {
            None
        },
    }
}

/// The movement decision that a resolved admission result stands for.
fn movement_decision(result: CollisionResolvedAdmissionResult) -> (r: CollisionMovementDecision)
    ensures
        r == decision_for(result),
{
    match result {
        CollisionResolvedAdmissionResult::Accepted => CollisionMovementDecision::Accepted,
        CollisionResolvedAdmissionResult::AcceptedAfterResolution => CollisionMovementDecision::Corrected,
        CollisionResolvedAdmissionResult::RejectedStillOverlapping => CollisionMovementDecision::Blocked,
        CollisionResolvedAdmissionResult::UnknownBody => CollisionMovementDecision::UnknownBody,
    }
}

#[derive(Debug, Clone, PartialEq, Eq)]
pub struct CollisionWorld {
    cell_size_mm: i32,
    bodies: Vec<CollisionBody>,
}

impl CollisionWorld {
    /// A world is valid when its cell size is positive, its bodies are ordered by id and
    /// every radius is positive.
    pub closed spec fn wf(&self) -> bool {
        &&& self.cell_size_mm > 0
        &&& ids_increasing(self.bodies@)
        &&& forall|i: int| 0 <= i < self.bodies@.len() ==> #[trigger] self.bodies@[i].radius_mm > 0
    }

    pub closed spec fn spec_cell_size(&self) -> int {
        self.cell_size_mm as int
    }

    /// The bodies of the world in increasing id order.
    pub closed spec fn spec_bodies(&self) -> Seq<CollisionBody> {
        self.bodies@
    }

    pub proof fn lemma_wf(&self)
        requires
            self.wf(),
        ensures
            self.spec_cell_size() > 0,
            ids_increasing(self.spec_bodies()),
            forall|i: int| 0 <= i < self.spec_bodies().len() ==> #[trigger] self.spec_bodies()[i].radius_mm > 0,
    {
    }

    pub fn new(cell_size_mm: i32) -> (r: Result<Self, CollisionError>)
        ensures
            cell_size_mm <= 0 <==> r == Err::<Self, CollisionError>(CollisionError::InvalidCellSize),
            cell_size_mm > 0 ==> r is Ok,
            r is Ok ==> r->Ok_0.wf() && r->Ok_0.spec_cell_size() == cell_size_mm
                && r->Ok_0.spec_bodies() == Seq::<CollisionBody>::empty(),
    {
        if cell_size_mm <= 0 {
            return Err(CollisionError::InvalidCellSize);
        }
        Ok(CollisionWorld { cell_size_mm, bodies: Vec::new() })
    }

    pub fn cell_size_mm(&self) -> (r: i32)
        ensures
            r == self.spec_cell_size(),
    {
        self.cell_size_mm
    }

    /// The bodies of the world in increasing id order.
    pub fn bodies(&self) -> (r: &Vec<CollisionBody>)
        ensures
            r@ == self.spec_bodies(),
    {
        &self.bodies
    }

    pub fn body_count(&self) -> (r: usize)
        ensures
            r == self.spec_bodies().len(),
    {
        self.bodies.len()
    }

    /// Position of the first body whose id is not below `id`.
    fn lower_bound(&self, id: u64) -> (r: usize)
        requires
            self.wf(),
        ensures
            r <= self.bodies@.len(),
            forall|i: int| 0 <= i < r ==> self.bodies@[i].entity_id.0 < id,
            forall|i: int| r <= i < self.bodies@.len() ==> self.bodies@[i].entity_id.0 >= id,
    {
        let mut lo: usize = 0;
        let mut hi: usize = self.bodies.len();
        while lo < hi
            invariant
                self.wf(),
                lo <= hi <= self.bodies@.len(),
                forall|i: int| 0 <= i < lo ==> self.bodies@[i].entity_id.0 < id,
                forall|i: int| hi <= i < self.bodies@.len() ==> self.bodies@[i].entity_id.0 >= id,
            decreases hi - lo,
        {
            let mid = lo + (hi - lo) / 2;
            if self.bodies[mid].entity_id.0 < id {
                lo = mid + 1;
            } else {
                hi = mid;
            }
        }
        lo
    }

    /// Position of the body with the given id.
    fn find(&self, id: EntityId) -> (r: Option<usize>)
        requires
            self.wf(),
        ensures
            match r {
                Some(i) => i < self.bodies@.len() && self.bodies@[i as int].entity_id == id,
                None => !has_body(self.bodies@, id),
            },
    {
        let i = self.lower_bound(id.0);
        if i < self.bodies.len() && self.bodies[i].entity_id.0 == id.0 {
            Some(i)
        } else {
            proof {
                if has_body(self.bodies@, id) {
                    let k = choose|k: int| 0 <= k < self.bodies@.len() && self.bodies@[k].entity_id == id;
                    if k < i {
                    } else if k > i {
                        assert(self.bodies@[i as int].entity_id.0 < self.bodies@[k].entity_id.0);
                    }
                }
            }
            None
        }
    }

    pub fn body(&self, entity_id: EntityId) -> (r: Option<CollisionBody>)
        requires
            self.wf(),
        ensures
            r == body_of(self.spec_bodies(), entity_id),
    {
        match self.find(entity_id) {
            Some(i) => {
                proof {
                    lemma_index_of(self.bodies@, i as int);
                }
                Some(self.bodies[i])
            },
            None => None,
        }
    }

    /// Adds a body, or replaces the body with the same id.
    pub fn insert_or_update(&mut self, body: CollisionBody) -> (r: Result<(), CollisionError>)
        requires
            old(self).wf(),
        ensures
            final(self).wf(),
            final(self).spec_cell_size() == old(self).spec_cell_size(),
            body.radius_mm <= 0 ==> r == Err::<(), CollisionError>(CollisionError::InvalidRadius)
                && final(self).spec_bodies() == old(self).spec_bodies(),
            body.radius_mm > 0 ==> r is Ok
                && body_map(final(self).spec_bodies()) == body_map(old(self).spec_bodies()).insert(body.entity_id, body),
            body.radius_mm > 0 && has_body(old(self).spec_bodies(), body.entity_id) ==> final(self).spec_bodies()
                == old(self).spec_bodies().update(index_of(old(self).spec_bodies(), body.entity_id), body),
    {
        if body.radius_mm <= 0 {
            return Err(CollisionError::InvalidRadius);
        }
        let ghost s0 = self.bodies@;
        let i = self.lower_bound(body.entity_id.0);
        if i < self.bodies.len() && self.bodies[i].entity_id.0 == body.entity_id.0 {
            self.bodies.set(i, body);
            proof {
                let s1 = self.bodies@;
                lemma_index_of(s0, i as int);
                assert(s1 == s0.update(i as int, body));
                assert(ids_increasing(s1));
                self.lemma_map_update(s0, s1, i as int, body);
            }
        } else {
            self.bodies.insert(i, body);
            proof {
                let s1 = self.bodies@;
                if has_body(s0, body.entity_id) {
                    let k = choose|k: int| 0 <= k < s0.len() && s0[k].entity_id == body.entity_id;
                    if k > i {
                        assert(s0[i as int].entity_id.0 < s0[k].entity_id.0);
                    }
                }
                assert(s1 == s0.insert(i as int, body));
                assert(ids_increasing(s1)) by {
                    assert forall|a: int, b: int| 0 <= a < b < s1.len() implies s1[a].entity_id.0 < s1[b].entity_id.0 by {
                        if b < i {
                        } else if b == i {
                        } else if a < i {
                        } else if a == i {
                            assert(s1[b] == s0[b - 1]);
                        } else {
                        }
                    }
                }
                self.lemma_map_insert(s0, s1, i as int, body);
            }
        }
        Ok(())
    }

    proof fn lemma_map_update(&self, s0: Seq<CollisionBody>, s1: Seq<CollisionBody>, i: int, body: CollisionBody)
        requires
            ids_increasing(s0),
            ids_increasing(s1),
            0 <= i < s0.len(),
            s0[i].entity_id == body.entity_id,
            s1 == s0.update(i, body),
        ensures
            body_map(s1) == body_map(s0).insert(body.entity_id, body),
    {
        assert forall|id: EntityId| has_body(s1, id) == (has_body(s0, id) || id == body.entity_id) by {
            if has_body(s0, id) {
                let k = index_of(s0, id);
                assert(s1[k].entity_id == id);
            }
            if has_body(s1, id) {
                let k = index_of(s1, id);
                assert(s0[k].entity_id == id || k == i);
            }
        }
        assert forall|id: EntityId| #[trigger] has_body(s1, id) implies s1[index_of(s1, id)] == (if id == body.entity_id { body } else { s0[index_of(s0, id)] }) by {
            let k = index_of(s1, id);
            lemma_index_of(s1, k);
            if id == body.entity_id {
                lemma_index_of(s1, i);
            } else {
                lemma_index_of(s0, k);
            }
        }
        assert(body_map(s1) =~= body_map(s0).insert(body.entity_id, body));
    }

    proof fn lemma_map_insert(&self, s0: Seq<CollisionBody>, s1: Seq<CollisionBody>, i: int, body: CollisionBody)
        requires
            ids_increasing(s0),
            ids_increasing(s1),
            0 <= i <= s0.len(),
            s1 == s0.insert(i, body),
        ensures
            body_map(s1) == body_map(s0).insert(body.entity_id, body),
    {
        assert forall|id: EntityId| has_body(s1, id) == (has_body(s0, id) || id == body.entity_id) by {
            if has_body(s0, id) {
                let k = index_of(s0, id);
                if k < i {
                    assert(s1[k].entity_id == id);
                } else {
                    assert(s1[k + 1].entity_id == id);
                }
            }
            if id == body.entity_id {
                assert(s1[i].entity_id == id);
            }
            if has_body(s1, id) {
                let k = index_of(s1, id);
                if k < i {
                    assert(s0[k].entity_id == id);
                } else if k > i {
                    assert(s0[k - 1].entity_id == id);
                }
            }
        }
        assert forall|id: EntityId| #[trigger] has_body(s1, id) implies s1[index_of(s1, id)] == (if id == body.entity_id { body } else { s0[index_of(s0, id)] }) by {
            let k = index_of(s1, id);
            lemma_index_of(s1, k);
            if k == i {
            } else if k < i {
                assert(s0[k] == s1[k]);
                lemma_index_of(s0, k);
            } else {
                assert(s0[k - 1] == s1[k]);
                lemma_index_of(s0, k - 1);
            }
        }
        assert(body_map(s1) =~= body_map(s0).insert(body.entity_id, body));
    }

    /// The grid cell of each body, in body order.
    fn body_cells(&self) -> (r: Vec<SpatialCell>)
        requires
            self.wf(),
        ensures
            r@.len() == self.bodies@.len(),
            forall|i: int| 0 <= i < r@.len() ==> #[trigger] r@[i] == cell_of(self.bodies@[i].position, self.cell_size_mm as int),
    {
        let mut cells: Vec<SpatialCell> = Vec::with_capacity(self.bodies.len());
        let mut i: usize = 0;
        while i < self.bodies.len()
            invariant
                self.wf(),
                i <= self.bodies@.len(),
                cells@.len() == i,
                forall|k: int| 0 <= k < i ==> #[trigger] cells@[k] == cell_of(self.bodies@[k].position, self.cell_size_mm as int),
            decreases self.bodies@.len() - i,
        {
            cells.push(cell_for(self.bodies[i].position, self.cell_size_mm));
            i += 1;
        }
        cells
    }

    /// Every overlapping or touching pair of bodies in neighbouring cells, ordered by the ids
    /// of the pair.
    pub fn detect_overlaps(&self) -> (r: Vec<CollisionContact>)
        requires
            self.wf(),
        ensures
            r@ == overlap_contacts(self.spec_bodies(), self.spec_cell_size()),
    {
        let n = self.bodies.len();
        let cells = self.body_cells();
        let ghost s = self.bodies@;
        let ghost size = self.cell_size_mm as int;
        let mut out: Vec<CollisionContact> = Vec::new();
        let mut i: usize = 0;
        while i < n
            invariant
                self.wf(),
                s == self.bodies@,
                size == self.cell_size_mm as int,
                n == s.len(),
                cells@.len() == n,
                forall|k: int| 0 <= k < n ==> #[trigger] cells@[k] == cell_of(s[k].position, size),
                i <= n,
                out@ == contacts_before(s, size, i as int),
            decreases n - i,
        {
            let mut j: usize = i + 1;
            while j < n
                invariant
                    self.wf(),
                    s == self.bodies@,
                    size == self.cell_size_mm as int,
                    n == s.len(),
                    cells@.len() == n,
                    forall|k: int| 0 <= k < n ==> #[trigger] cells@[k] == cell_of(s[k].position, size),
                    i < n,
                    i + 1 <= j <= n,
                    out@ == contacts_before(s, size, i as int) + row_contacts(s, size, i as int, j as int),
                decreases n - j,
            {
                let found = contact_between(&self.bodies[i], &self.bodies[j], cells[i], cells[j], Ghost(size));
                let ghost before = out@;
                match found {
                    Some(c) => {
                        out.push(c);
                        assert(out@ == contacts_before(s, size, i as int) + row_contacts(s, size, i as int, j + 1));
                    },
                    None => {
                        assert(out@ == contacts_before(s, size, i as int) + row_contacts(s, size, i as int, j + 1));
                    },
                }
                j += 1;
            }
            i += 1;
        }
        out
    }

    /// Number of contacts in the world.
    fn contact_count(&self) -> (r: usize)
        requires
            self.wf(),
        ensures
            r == overlap_contacts(self.spec_bodies(), self.spec_cell_size()).len(),
    {
        self.detect_overlaps().len()
    }

    /// Ids of the bodies other than `excluded` that a circle at `position` reaches, in id order.
    fn overlapping_entity_ids(&self, position: WorldPosition, radius_mm: i32, excluded: Option<EntityId>) -> (r: Vec<EntityId>)
        requires
            self.wf(),
        ensures
            r@ == overlap_ids(self.spec_bodies(), position, radius_mm, excluded),
    {
        let mut out: Vec<EntityId> = Vec::new();
        let mut i: usize = 0;
        let ghost s = self.bodies@;
        while i < self.bodies.len()
            invariant
                s == self.bodies@,
                i <= s.len(),
                out@ == overlap_ids(s.take(i as int), position, radius_mm, excluded),
            decreases s.len() - i,
        {
            let b = self.bodies[i];
            assert(s.take(i + 1).drop_last() == s.take(i as int));
            let skip = match excluded {
                Some(e) => e.0 == b.entity_id.0,
                None => false,
            };
            if !skip && circles_reach(position, radius_mm, b.position, b.radius_mm) {
                out.push(b.entity_id);
            }
            i += 1;
        }
        assert(s.take(s.len() as int) == s);
        out
    }

    /// Ids of all bodies that a circle at `position` reaches, in id order.
    pub fn probe_circle(&self, position: WorldPosition, radius_mm: i32) -> (r: Result<CollisionProbe, CollisionError>)
        requires
            self.wf(),
        ensures
            radius_mm <= 0 <==> r == Err::<CollisionProbe, CollisionError>(CollisionError::InvalidRadius),
            r is Ok ==> r->Ok_0.position == position && r->Ok_0.radius_mm == radius_mm
                && r->Ok_0.overlapping_entity_ids@ == overlap_ids(self.spec_bodies(), position, radius_mm, None),
    {
        if radius_mm <= 0 {
            return Err(CollisionError::InvalidRadius);
        }
        let overlapping_entity_ids = self.overlapping_entity_ids(position, radius_mm, None);
        Ok(CollisionProbe { position, radius_mm, overlapping_entity_ids })
    }

    /// Checks whether a known body could stand at `target_position` without overlapping another.
    pub fn admit_body_position(&self, entity_id: EntityId, target_position: WorldPosition) -> (r: CollisionAdmission)
        requires
            self.wf(),
        ensures
            r.entity_id == entity_id,
            r.to == target_position,
            r.result == admission_result(self.spec_bodies(), entity_id, target_position),
            r.blocking_entity_ids@ == admission_blocking(self.spec_bodies(), entity_id, target_position),
            ids_ascending(r.blocking_entity_ids@),
            match body_of(self.spec_bodies(), entity_id) {
                None => r.from == None::<WorldPosition> && r.radius_mm == 0,
                Some(b) => r.from == Some(b.position) && r.radius_mm == b.radius_mm,
            },
    {
        proof {
            self.lemma_wf();
            lemma_admission_blocking_ascending(self.spec_bodies(), entity_id, target_position);
        }
        match self.body(entity_id) {
            None => CollisionAdmission {
                entity_id,
                from: None,
                to: target_position,
                radius_mm: 0,
                result: CollisionAdmissionResult::UnknownBody,
                blocking_entity_ids: Vec::new(),
            },
            Some(body) => {
                let blocking_entity_ids = self.overlapping_entity_ids(target_position, body.radius_mm, Some(entity_id));
                let result = if blocking_entity_ids.len() == 0 {
                    CollisionAdmissionResult::Accepted
                } else {
                    CollisionAdmissionResult::RejectedOverlap
                };
                CollisionAdmission {
                    entity_id,
                    from: Some(body.position),
                    to: target_position,
                    radius_mm: body.radius_mm,
                    result,
                    blocking_entity_ids,
                }
            },
        }
    }
}

impl CollisionWorld {
    /// A copy of the world.
    fn duplicate(&self) -> (r: Self)
        ensures
            r.cell_size_mm == self.cell_size_mm,
            r.bodies@ == self.bodies@,
    {
        let mut bodies: Vec<CollisionBody> = Vec::with_capacity(self.bodies.len());
        let mut i: usize = 0;
        while i < self.bodies.len()
            invariant
                i <= self.bodies@.len(),
                bodies@ == self.bodies@.take(i as int),
            decreases self.bodies@.len() - i,
        {
            bodies.push(self.bodies[i]);
            i += 1;
        }
        assert(self.bodies@.take(self.bodies@.len() as int) == self.bodies@);
        CollisionWorld { cell_size_mm: self.cell_size_mm, bodies }
    }

    /// Builds a world from a list of bodies; a later body replaces an earlier one with the same id.
    pub fn with_bodies(cell_size_mm: i32, bodies: Vec<CollisionBody>) -> (r: Result<Self, CollisionError>)
        ensures
            cell_size_mm <= 0 ==> r == Err::<Self, CollisionError>(CollisionError::InvalidCellSize),
            cell_size_mm > 0 && !all_radii_positive(bodies@) ==> r == Err::<Self, CollisionError>(CollisionError::InvalidRadius),
            cell_size_mm > 0 && all_radii_positive(bodies@) ==> r is Ok,
            r is Ok ==> r->Ok_0.wf() && r->Ok_0.spec_cell_size() == cell_size_mm
                && body_map(r->Ok_0.spec_bodies()) == inserted_map(bodies@),
    {
        let mut world = match CollisionWorld::new(cell_size_mm) {
            Ok(w) => w,
            Err(e) => return Err(e),
        };
        proof {
            assert(body_map(world.bodies@) =~= Map::<EntityId, CollisionBody>::empty());
            assert(bodies@.take(0) =~= Seq::<CollisionBody>::empty());
        }
        let mut k: usize = 0;
        while k < bodies.len()
            invariant
                world.wf(),
                world.cell_size_mm == cell_size_mm,
                k <= bodies@.len(),
                all_radii_positive(bodies@.take(k as int)),
                body_map(world.bodies@) == inserted_map(bodies@.take(k as int)),
            decreases bodies@.len() - k,
        {
            let body = bodies[k];
            if body.radius_mm <= 0 {
                return Err(CollisionError::InvalidRadius);
            }
            let _ = world.insert_or_update(body);
            proof {
                assert(bodies@.take(k + 1).drop_last() == bodies@.take(k as int));
                assert(all_radii_positive(bodies@.take(k + 1))) by {
                    assert forall|i: int| 0 <= i < bodies@.take(k + 1).len() implies #[trigger] bodies@.take(k + 1)[i].radius_mm > 0 by {
                        if i < k {
                            assert(bodies@.take(k + 1)[i] == bodies@.take(k as int)[i]);
                        }
                    }
                }
            }
            k += 1;
        }
        assert(bodies@.take(bodies@.len() as int) == bodies@);
        Ok(world)
    }

    /// The corrections that would separate every overlapping pair, summed per body and
    /// saturated into `i32`; bodies whose total is zero are left out.
    pub fn plan_overlap_resolution(&self) -> (r: CollisionResolutionPlan)
        requires
            self.wf(),
        ensures
            r.contact_count == overlap_contacts(self.spec_bodies(), self.spec_cell_size()).len(),
            r.corrections@ == planned_corrections(self.spec_bodies(), self.spec_cell_size()),
            r.claim_scope@ == "resolution_plan_only"@,
    {
        let contacts = self.detect_overlaps();
        let ghost s = self.bodies@;
        let ghost cs = contacts@;
        proof {
            lemma_contacts_overlap(s, self.cell_size_mm as int);
        }
        let n = self.bodies.len();
        let mut sum_x: Vec<i128> = Vec::with_capacity(n);
        let mut sum_y: Vec<i128> = Vec::with_capacity(n);
        let mut z: usize = 0;
        while z < n
            invariant
                z <= n,
                sum_x@.len() == z,
                sum_y@.len() == z,
                forall|i: int| 0 <= i < z ==> sum_x@[i] == 0 && sum_y@[i] == 0,
            decreases n - z,
        {
            sum_x.push(0);
            sum_y.push(0);
            z += 1;
        }
        let mut k: usize = 0;
        while k < contacts.len()
            invariant
                self.wf(),
                s == self.bodies@,
                cs == contacts@,
                n == s.len(),
                forall|j: int| 0 <= j < cs.len() ==> (#[trigger] cs[j]).overlap_mm >= 0,
                k <= cs.len(),
                sum_x@.len() == n,
                sum_y@.len() == n,
                forall|i: int| 0 <= i < n ==> #[trigger] sum_x@[i] == summed_push(s, cs.take(k as int), s[i].entity_id).0,
                forall|i: int| 0 <= i < n ==> #[trigger] sum_y@[i] == summed_push(s, cs.take(k as int), s[i].entity_id).1,
                forall|i: int| 0 <= i < n ==> -(k * 0x1_0000_0000) <= #[trigger] sum_x@[i] <= k * 0x1_0000_0000,
                forall|i: int| 0 <= i < n ==> -(k * 0x1_0000_0000) <= #[trigger] sum_y@[i] <= k * 0x1_0000_0000,
            decreases cs.len() - k,
        {
            let c = contacts[k];
            let ghost old_x = sum_x@;
            let ghost old_y = sum_y@;
            proof {
                assert(cs.take(k + 1).drop_last() == cs.take(k as int));
                assert(cs.take(k + 1).last() == c);
            }
            match (self.find(c.a), self.find(c.b)) {
                (Some(ia), Some(ib)) => {
                    proof {
                        lemma_index_of(s, ia as int);
                        lemma_index_of(s, ib as int);
                    }
                    let (p, q) = correction_for_pair(self.bodies[ia], self.bodies[ib], c.overlap_mm);
                    let vx = sum_x[ia] + p.dx_mm as i128;
                    sum_x.set(ia, vx);
                    let vy = sum_y[ia] + p.dy_mm as i128;
                    sum_y.set(ia, vy);
                    let wx = sum_x[ib] + q.dx_mm as i128;
                    sum_x.set(ib, wx);
                    let wy = sum_y[ib] + q.dy_mm as i128;
                    sum_y.set(ib, wy);
                    proof {
                        assert forall|i: int| 0 <= i < n implies #[trigger] sum_x@[i] == summed_push(s, cs.take(k + 1), s[i].entity_id).0
                            && sum_y@[i] == summed_push(s, cs.take(k + 1), s[i].entity_id).1 by {
                            if i != ia as int {
                                assert(s[i].entity_id != c.a);
                            }
                            if i != ib as int {
                                assert(s[i].entity_id != c.b);
                            }
                        }
                    }
                },
                (Some(ia), None) => {
                    proof {
                        lemma_index_of(s, ia as int);
                        assert forall|i: int| 0 <= i < n implies #[trigger] sum_x@[i] == summed_push(s, cs.take(k + 1), s[i].entity_id).0
                            && sum_y@[i] == summed_push(s, cs.take(k + 1), s[i].entity_id).1 by {
                        }
                    }
                },
                (None, _) => {
                    proof {
                        assert forall|i: int| 0 <= i < n implies #[trigger] sum_x@[i] == summed_push(s, cs.take(k + 1), s[i].entity_id).0
                            && sum_y@[i] == summed_push(s, cs.take(k + 1), s[i].entity_id).1 by {
                        }
                    }
                },
            }
            k += 1;
        }
        assert(cs.take(cs.len() as int) == cs);
        let mut corrections: Vec<CollisionCorrection> = Vec::new();
        let mut i: usize = 0;
        while i < n
            invariant
                s == self.bodies@,
                cs == contacts@,
                n == s.len(),
                i <= n,
                sum_x@.len() == n,
                sum_y@.len() == n,
                forall|j: int| 0 <= j < n ==> #[trigger] sum_x@[j] == summed_push(s, cs, s[j].entity_id).0,
                forall|j: int| 0 <= j < n ==> #[trigger] sum_y@[j] == summed_push(s, cs, s[j].entity_id).1,
                corrections@ == planned_prefix(s, cs, i as int),
            decreases n - i,
        {
            let dx = clamp_i128_to_i32(sum_x[i]);
            let dy = clamp_i128_to_i32(sum_y[i]);
            if dx != 0 || dy != 0 {
                corrections.push(CollisionCorrection { entity_id: self.bodies[i].entity_id, dx_mm: dx, dy_mm: dy });
            }
            i += 1;
        }
        CollisionResolutionPlan { contact_count: contacts.len(), corrections, claim_scope: "resolution_plan_only" }
    }

    /// Applies a plan's corrections in order, each scaled down to `correction_limit_abs_mm` when
    /// one is given; corrections for unknown bodies or that come to zero are skipped.
    fn apply_resolution_plan_with_limit(&mut self, plan: &CollisionResolutionPlan, correction_limit_abs_mm: Option<u32>) -> (r: AppliedCollisionCorrections)
        requires
            old(self).wf(),
        ensures
            final(self).wf(),
            final(self).cell_size_mm == old(self).cell_size_mm,
            ({
                let a = apply_all(old(self).bodies@, plan.corrections@, correction_limit_abs_mm);
                &&& final(self).bodies@ == a.0
                &&& r.applied_correction_count == a.1
                &&& 0 <= a.2
                &&& 0 <= a.3 <= u32::MAX
                &&& 0 <= a.4
                &&& r.applied_correction_abs_mm_total == clamp_u64(a.2)
                &&& r.max_applied_correction_abs_mm == a.3
                &&& r.clamped_correction_count == a.4
            }),
    {
        let ghost s0 = self.bodies@;
        let ghost cs = plan.corrections@;
        let mut count: usize = 0;
        let mut total: u64 = 0;
        let mut largest: u32 = 0;
        let mut clamped: usize = 0;
        let mut k: usize = 0;
        proof {
            assert(cs.take(0) =~= Seq::<CollisionCorrection>::empty());
        }
        while k < plan.corrections.len()
            invariant
                self.wf(),
                self.cell_size_mm == old(self).cell_size_mm,
                s0 == old(self).bodies@,
                cs == plan.corrections@,
                k <= cs.len(),
                ({
                    let a = apply_all(s0, cs.take(k as int), correction_limit_abs_mm);
                    &&& self.bodies@ == a.0
                    &&& count == a.1
                    &&& 0 <= a.2
                    &&& total == clamp_u64(a.2)
                    &&& largest == a.3
                    &&& 0 <= a.3 <= u32::MAX
                    &&& clamped == a.4
                    &&& 0 <= a.1 <= k
                    &&& 0 <= a.4 <= k
                }),
            decreases cs.len() - k,
        {
            let c = plan.corrections[k];
            proof {
                assert(cs.take(k + 1).drop_last() == cs.take(k as int));
                assert(cs.take(k + 1).last() == c);
            }
            match self.find(c.entity_id) {
                None => {},
                Some(i) => {
                    proof {
                        lemma_index_of(self.bodies@, i as int);
                    }
                    let e = match correction_limit_abs_mm {
                        Some(limit) => clamp_correction_abs_mm(c, limit),
                        None => c,
                    };
                    if e.dx_mm != 0 || e.dy_mm != 0 {
                        let size = correction_abs_mm(&e);
                        if size < correction_abs_mm(&c) {
                            clamped = clamped + 1;
                        }
                        let b = self.bodies[i];
                        let moved = CollisionBody {
                            position: WorldPosition {
                                x_mm: sat_add_i32(b.position.x_mm, e.dx_mm),
                                y_mm: sat_add_i32(b.position.y_mm, e.dy_mm),
                            },
                            ..b
                        };
                        self.bodies.set(i, moved);
                        count = count + 1;
                        total = sat_add_u64(total, size as u64);
                        if size > largest {
                            largest = size;
                        }
                        proof {
                            assert(ids_increasing(self.bodies@));
                            assert(forall|j: int| 0 <= j < self.bodies@.len() ==> #[trigger] self.bodies@[j].radius_mm > 0);
                        }
                    }
                },
            }
            k += 1;
        }
        assert(cs.take(cs.len() as int) == cs);
        AppliedCollisionCorrections {
            applied_correction_count: count,
            applied_correction_abs_mm_total: total,
            max_applied_correction_abs_mm: largest,
            clamped_correction_count: clamped,
        }
    }

    /// Applies a plan's corrections and returns how many moved a body.
    pub fn apply_resolution_plan(&mut self, plan: &CollisionResolutionPlan) -> (r: usize)
        requires
            old(self).wf(),
        ensures
            final(self).wf(),
            final(self).spec_cell_size() == old(self).spec_cell_size(),
            final(self).spec_bodies() == apply_all(old(self).spec_bodies(), plan.corrections@, None).0,
            r == apply_all(old(self).spec_bodies(), plan.corrections@, None).1,
    {
        self.apply_resolution_plan_with_limit(plan, None).applied_correction_count
    }

    /// Runs up to `max_iterations` rounds of planning and applying corrections, stopping early
    /// once there is no contact or nothing to correct.
    fn step_overlap_resolution_with_limit(&mut self, max_iterations: usize, correction_limit_abs_mm: Option<u32>) -> (r: CollisionPhysicsStep)
        requires
            old(self).wf(),
        ensures
            final(self).wf(),
            final(self).cell_size_mm == old(self).cell_size_mm,
            ({
                let t = resolution_trace(old(self).bodies@, old(self).cell_size_mm as int, correction_limit_abs_mm, max_iterations as nat);
                let final_count = overlap_contacts(final(self).bodies@, final(self).cell_size_mm as int).len();
                &&& final(self).bodies@ == t.0
                &&& r.initial_contact_count == overlap_contacts(old(self).bodies@, old(self).cell_size_mm as int).len()
                &&& r.iterations_requested == max_iterations
                &&& r.iterations_run == t.1
                &&& r.applied_correction_count == clamp_usize(t.2)
                &&& r.applied_correction_abs_mm_total == clamp_u64(t.3)
                &&& r.max_applied_correction_abs_mm == t.4
                &&& r.correction_limit_abs_mm == correction_limit_abs_mm
                &&& r.clamped_correction_count == clamp_usize(t.5)
                &&& r.final_contact_count == final_count
                &&& r.resolved == (final_count == 0)
                &&& r.claim_scope@ == "collision_world_only"@
            }),
    {
        let ghost s0 = self.bodies@;
        let ghost size = self.cell_size_mm as int;
        let initial_contact_count = self.contact_count();
        let mut iterations_run: usize = 0;
        let mut applied_correction_count: usize = 0;
        let mut applied_correction_abs_mm_total: u64 = 0;
        let mut max_applied_correction_abs_mm: u32 = 0;
        let mut clamped_correction_count: usize = 0;
        let mut it: usize = 0;
        while it < max_iterations
            invariant_except_break
                self.wf(),
                self.cell_size_mm == old(self).cell_size_mm,
                size == self.cell_size_mm as int,
                s0 == old(self).bodies@,
                it <= max_iterations,
                ({
                    let t = resolution_trace(s0, size, correction_limit_abs_mm, it as nat);
                    &&& !t.6
                    &&& self.bodies@ == t.0
                    &&& iterations_run == t.1
                    &&& 0 <= t.2 && applied_correction_count == clamp_usize(t.2)
                    &&& 0 <= t.3 && applied_correction_abs_mm_total == clamp_u64(t.3)
                    &&& 0 <= t.4 <= u32::MAX && max_applied_correction_abs_mm == t.4
                    &&& 0 <= t.5 && clamped_correction_count == clamp_usize(t.5)
                    &&& t.1 <= it
                }),
            ensures
                self.wf(),
                self.cell_size_mm == old(self).cell_size_mm,
                ({
                    let t = resolution_trace(s0, size, correction_limit_abs_mm, max_iterations as nat);
                    &&& self.bodies@ == t.0
                    &&& iterations_run == t.1
                    &&& applied_correction_count == clamp_usize(t.2)
                    &&& applied_correction_abs_mm_total == clamp_u64(t.3)
                    &&& max_applied_correction_abs_mm == t.4
                    &&& clamped_correction_count == clamp_usize(t.5)
                }),
            decreases max_iterations - it,
        {
            let plan = self.plan_overlap_resolution();
            if plan.contact_count == 0 || plan.corrections.len() == 0 {
                proof {
                    lemma_trace_stopped(s0, size, correction_limit_abs_mm, (it + 1) as nat, max_iterations as nat);
                }
                break;
            }
            let ghost before = self.bodies@;
            let applied = self.apply_resolution_plan_with_limit(&plan, correction_limit_abs_mm);
            proof {
                let t = resolution_trace(s0, size, correction_limit_abs_mm, it as nat);
                let a = apply_all(before, plan.corrections@, correction_limit_abs_mm);
                assert(resolution_trace(s0, size, correction_limit_abs_mm, (it + 1) as nat)
                    == (a.0, t.1 + 1, t.2 + a.1, t.3 + a.2, if a.3 > t.4 { a.3 } else { t.4 }, t.5 + a.4, false));
            }
            applied_correction_count = applied_correction_count.saturating_add(applied.applied_correction_count);
            applied_correction_abs_mm_total = sat_add_u64(applied_correction_abs_mm_total, applied.applied_correction_abs_mm_total);
            if applied.max_applied_correction_abs_mm > max_applied_correction_abs_mm {
                max_applied_correction_abs_mm = applied.max_applied_correction_abs_mm;
            }
            clamped_correction_count = clamped_correction_count.saturating_add(applied.clamped_correction_count);
            iterations_run = iterations_run + 1;
            it = it + 1;
        }
        let final_contact_count = self.contact_count();
        CollisionPhysicsStep {
            initial_contact_count,
            iterations_requested: max_iterations,
            iterations_run,
            applied_correction_count,
            applied_correction_abs_mm_total,
            max_applied_correction_abs_mm,
            correction_limit_abs_mm,
            clamped_correction_count,
            final_contact_count,
            resolved: final_contact_count == 0,
            claim_scope: "collision_world_only",
        }
    }

    /// Runs up to `max_iterations` rounds of overlap resolution.
    pub fn step_overlap_resolution(&mut self, max_iterations: usize) -> (r: CollisionPhysicsStep)
        requires
            old(self).wf(),
        ensures
            final(self).wf(),
            final(self).spec_cell_size() == old(self).spec_cell_size(),
            ({
                let t = resolution_trace(old(self).spec_bodies(), old(self).spec_cell_size(), None, max_iterations as nat);
                let final_count = overlap_contacts(final(self).spec_bodies(), final(self).spec_cell_size()).len();
                &&& final(self).spec_bodies() == t.0
                &&& r.initial_contact_count == overlap_contacts(old(self).spec_bodies(), old(self).spec_cell_size()).len()
                &&& r.iterations_requested == max_iterations
                &&& r.iterations_run == t.1
                &&& r.applied_correction_count == clamp_usize(t.2)
                &&& r.applied_correction_abs_mm_total == clamp_u64(t.3)
                &&& r.max_applied_correction_abs_mm == t.4
                &&& r.correction_limit_abs_mm == None::<u32>
                &&& r.clamped_correction_count == clamp_usize(t.5)
                &&& r.final_contact_count == final_count
                &&& r.resolved == (final_count == 0)
                &&& r.claim_scope@ == "collision_world_only"@
            }),
    {
        self.step_overlap_resolution_with_limit(max_iterations, None)
    }

    /// Runs up to `max_iterations` rounds of overlap resolution, scaling each correction down to
    /// at most `correction_limit_abs_mm`.
    pub fn step_overlap_resolution_with_correction_limit(&mut self, max_iterations: usize, correction_limit_abs_mm: u32) -> (r: CollisionPhysicsStep)
        requires
            old(self).wf(),
        ensures
            final(self).wf(),
            final(self).spec_cell_size() == old(self).spec_cell_size(),
            ({
                let t = resolution_trace(old(self).spec_bodies(), old(self).spec_cell_size(), Some(correction_limit_abs_mm), max_iterations as nat);
                let final_count = overlap_contacts(final(self).spec_bodies(), final(self).spec_cell_size()).len();
                &&& final(self).spec_bodies() == t.0
                &&& r.initial_contact_count == overlap_contacts(old(self).spec_bodies(), old(self).spec_cell_size()).len()
                &&& r.iterations_requested == max_iterations
                &&& r.iterations_run == t.1
                &&& r.applied_correction_count == clamp_usize(t.2)
                &&& r.applied_correction_abs_mm_total == clamp_u64(t.3)
                &&& r.max_applied_correction_abs_mm == t.4
                &&& r.correction_limit_abs_mm == Some(correction_limit_abs_mm)
                &&& r.clamped_correction_count == clamp_usize(t.5)
                &&& r.final_contact_count == final_count
                &&& r.resolved == (final_count == 0)
                &&& r.claim_scope@ == "collision_world_only"@
            }),
    {
        self.step_overlap_resolution_with_limit(max_iterations, Some(correction_limit_abs_mm))
    }
}

impl CollisionWorld {
    fn admit_body_position_after_resolution_with_optional_limit(
        &self,
        entity_id: EntityId,
        target_position: WorldPosition,
        max_iterations: usize,
        correction_limit_abs_mm: Option<u32>,
    ) -> (r: CollisionResolvedAdmission)
        requires
            self.wf(),
        ensures
            resolved_admission_matches(r, self.spec_bodies(), self.spec_cell_size(), entity_id, target_position, max_iterations, correction_limit_abs_mm),
    {
        let initial = self.admit_body_position(entity_id, target_position);
        match initial.result {
            CollisionAdmissionResult::UnknownBody => {
                return CollisionResolvedAdmission {
                    entity_id,
                    requested_position: target_position,
                    resolved_position: None,
                    initial_result: initial.result,
                    initial_blocking_entity_ids: initial.blocking_entity_ids,
                    result: CollisionResolvedAdmissionResult::UnknownBody,
                    blocking_entity_ids: Vec::new(),
                    iterations_requested: max_iterations,
                    iterations_run: 0,
                    applied_correction_count: 0,
                    applied_correction_abs_mm_total: 0,
                    max_applied_correction_abs_mm: 0,
                    correction_limit_abs_mm,
                    clamped_correction_count: 0,
                    final_contact_count: self.contact_count(),
                    claim_scope: "resolved_admission_only",
                };
            },
            CollisionAdmissionResult::Accepted => {
                return CollisionResolvedAdmission {
                    entity_id,
                    requested_position: target_position,
                    resolved_position: Some(target_position),
                    initial_result: initial.result,
                    initial_blocking_entity_ids: initial.blocking_entity_ids,
                    result: CollisionResolvedAdmissionResult::Accepted,
                    blocking_entity_ids: Vec::new(),
                    iterations_requested: max_iterations,
                    iterations_run: 0,
                    applied_correction_count: 0,
                    applied_correction_abs_mm_total: 0,
                    max_applied_correction_abs_mm: 0,
                    correction_limit_abs_mm,
                    clamped_correction_count: 0,
                    final_contact_count: self.contact_count(),
                    claim_scope: "resolved_admission_only",
                };
            },
            CollisionAdmissionResult::RejectedOverlap => {},
        }
        let body = match self.body(entity_id) {
            Some(b) => b,
            None => {
                return CollisionResolvedAdmission {
                    entity_id,
                    requested_position: target_position,
                    resolved_position: None,
                    initial_result: initial.result,
                    initial_blocking_entity_ids: initial.blocking_entity_ids,
                    result: CollisionResolvedAdmissionResult::UnknownBody,
                    blocking_entity_ids: Vec::new(),
                    iterations_requested: max_iterations,
                    iterations_run: 0,
                    applied_correction_count: 0,
                    applied_correction_abs_mm_total: 0,
                    max_applied_correction_abs_mm: 0,
                    correction_limit_abs_mm,
                    clamped_correction_count: 0,
                    final_contact_count: self.contact_count(),
                    claim_scope: "resolved_admission_only",
                };
            },
        };
        let mut candidate_world = self.duplicate();
        let moved = CollisionBody { position: target_position, ..body };
        proof {
            lemma_index_of(self.bodies@, index_of(self.bodies@, entity_id));
        }
        let _ = candidate_world.insert_or_update(moved);
        assert(candidate_world.bodies@ == relocated(self.bodies@, entity_id, target_position));
        let step = candidate_world.step_overlap_resolution_with_limit(max_iterations, correction_limit_abs_mm);
        match candidate_world.body(entity_id) {
            None => CollisionResolvedAdmission {
                entity_id,
                requested_position: target_position,
                resolved_position: None,
                initial_result: initial.result,
                initial_blocking_entity_ids: initial.blocking_entity_ids,
                result: CollisionResolvedAdmissionResult::UnknownBody,
                blocking_entity_ids: Vec::new(),
                iterations_requested: max_iterations,
                iterations_run: step.iterations_run,
                applied_correction_count: step.applied_correction_count,
                applied_correction_abs_mm_total: step.applied_correction_abs_mm_total,
                max_applied_correction_abs_mm: step.max_applied_correction_abs_mm,
                correction_limit_abs_mm: step.correction_limit_abs_mm,
                clamped_correction_count: step.clamped_correction_count,
                final_contact_count: step.final_contact_count,
                claim_scope: "resolved_admission_only",
            },
            Some(resolved_body) => {
                let blocking_entity_ids = candidate_world.overlapping_entity_ids(
                    resolved_body.position,
                    resolved_body.radius_mm,
                    Some(entity_id),
                );
                let result = if blocking_entity_ids.len() == 0 {
                    CollisionResolvedAdmissionResult::AcceptedAfterResolution
                } else {
                    CollisionResolvedAdmissionResult::RejectedStillOverlapping
                };
                CollisionResolvedAdmission {
                    entity_id,
                    requested_position: target_position,
                    resolved_position: Some(resolved_body.position),
                    initial_result: initial.result,
                    initial_blocking_entity_ids: initial.blocking_entity_ids,
                    result,
                    blocking_entity_ids,
                    iterations_requested: max_iterations,
                    iterations_run: step.iterations_run,
                    applied_correction_count: step.applied_correction_count,
                    applied_correction_abs_mm_total: step.applied_correction_abs_mm_total,
                    max_applied_correction_abs_mm: step.max_applied_correction_abs_mm,
                    correction_limit_abs_mm: step.correction_limit_abs_mm,
                    clamped_correction_count: step.clamped_correction_count,
                    final_contact_count: step.final_contact_count,
                    claim_scope: "resolved_admission_only",
                }
            },
        }
    }

    /// Checks a move of a known body, letting up to `max_iterations` rounds of local overlap
    /// resolution push it clear when the target overlaps another body.
    pub fn admit_body_position_after_resolution(&self, entity_id: EntityId, target_position: WorldPosition, max_iterations: usize) -> (r: CollisionResolvedAdmission)
        requires
            self.wf(),
        ensures
            resolved_admission_matches(r, self.spec_bodies(), self.spec_cell_size(), entity_id, target_position, max_iterations, None),
            resolved_admission_laws(r, max_iterations),
    {
        let r = self.admit_body_position_after_resolution_with_optional_limit(entity_id, target_position, max_iterations, None);
        proof {
            lemma_resolved_admission_laws(r, self.spec_bodies(), self.spec_cell_size(), entity_id, target_position, max_iterations, None);
        }
        r
    }

    /// Like `admit_body_position_after_resolution`, with each correction scaled down to at most
    /// `correction_limit_abs_mm`.
    pub fn admit_body_position_after_resolution_with_correction_limit(
        &self,
        entity_id: EntityId,
        target_position: WorldPosition,
        max_iterations: usize,
        correction_limit_abs_mm: u32,
    ) -> (r: CollisionResolvedAdmission)
        requires
            self.wf(),
        ensures
            resolved_admission_matches(r, self.spec_bodies(), self.spec_cell_size(), entity_id, target_position, max_iterations, Some(correction_limit_abs_mm)),
            resolved_admission_laws(r, max_iterations),
    {
        let r = self.admit_body_position_after_resolution_with_optional_limit(entity_id, target_position, max_iterations, Some(correction_limit_abs_mm));
        proof {
            lemma_resolved_admission_laws(r, self.spec_bodies(), self.spec_cell_size(), entity_id, target_position, max_iterations, Some(correction_limit_abs_mm));
        }
        r
    }

    fn probe_movement_after_resolution_with_optional_limit(
        &self,
        entity_id: EntityId,
        target_position: WorldPosition,
        max_iterations: usize,
        correction_limit_abs_mm: Option<u32>,
    ) -> (r: CollisionMovementProbe)
        requires
            self.wf(),
        ensures
            movement_probe_matches(r, self.spec_bodies(), self.spec_cell_size(), entity_id, target_position, max_iterations, correction_limit_abs_mm),
    {
        let from = match self.body(entity_id) {
            Some(b) => Some(b.position),
            None => None,
        };
        let admission = self.admit_body_position_after_resolution_with_optional_limit(
            entity_id,
            target_position,
            max_iterations,
            correction_limit_abs_mm,
        );
        let requested_delta = match from {
            Some(p) => Some(movement_delta_between(p, target_position)),
            None => None,
        };
        let resolved_delta = match (from, admission.resolved_position) {
            (Some(p), Some(q)) => Some(movement_delta_between(p, q)),
            _ => None,
        };
        let decision = movement_decision(admission.result);
        CollisionMovementProbe {
            entity_id,
            from,
            requested_position: target_position,
            resolved_position: admission.resolved_position,
            requested_delta,
            resolved_delta,
            initial_result: admission.initial_result,
            resolved_result: admission.result,
            decision,
            initial_blocking_entity_ids: admission.initial_blocking_entity_ids,
            blocking_entity_ids: admission.blocking_entity_ids,
            iterations_requested: admission.iterations_requested,
            iterations_run: admission.iterations_run,
            applied_correction_count: admission.applied_correction_count,
            applied_correction_abs_mm_total: admission.applied_correction_abs_mm_total,
            max_applied_correction_abs_mm: admission.max_applied_correction_abs_mm,
            correction_limit_abs_mm: admission.correction_limit_abs_mm,
            clamped_correction_count: admission.clamped_correction_count,
            final_contact_count: admission.final_contact_count,
            claim_scope: "movement_probe_only",
        }
    }

    /// Probes a move of a known body with local resolution and reports the requested and
    /// resolved deltas and the decision.
    pub fn probe_movement_after_resolution(&self, entity_id: EntityId, target_position: WorldPosition, max_iterations: usize) -> (r: CollisionMovementProbe)
        requires
            self.wf(),
        ensures
            movement_probe_matches(r, self.spec_bodies(), self.spec_cell_size(), entity_id, target_position, max_iterations, None),
    {
        self.probe_movement_after_resolution_with_optional_limit(entity_id, target_position, max_iterations, None)
    }

    /// Like `probe_movement_after_resolution`, with each correction scaled down to at most
    /// `correction_limit_abs_mm`.
    pub fn probe_movement_after_resolution_with_correction_limit(
        &self,
        entity_id: EntityId,
        target_position: WorldPosition,
        max_iterations: usize,
        correction_limit_abs_mm: u32,
    ) -> (r: CollisionMovementProbe)
        requires
            self.wf(),
        ensures
            movement_probe_matches(r, self.spec_bodies(), self.spec_cell_size(), entity_id, target_position, max_iterations, Some(correction_limit_abs_mm)),
    {
        self.probe_movement_after_resolution_with_optional_limit(entity_id, target_position, max_iterations, Some(correction_limit_abs_mm))
    }
}

impl CollisionWorld {
    fn probe_movement_with_axis_slide_after_resolution_with_optional_limit(
        &self,
        entity_id: EntityId,
        target_position: WorldPosition,
        max_iterations: usize,
        correction_limit_abs_mm: Option<u32>,
    ) -> (r: CollisionMovementSlideProbe)
        requires
            self.wf(),
        ensures
            slide_probe_matches(r, self.spec_bodies(), self.spec_cell_size(), entity_id, target_position, max_iterations, correction_limit_abs_mm),
    {
        let ghost s = self.spec_bodies();
        let ghost size = self.spec_cell_size();
        let requested_probe = self.probe_movement_after_resolution_with_optional_limit(
            entity_id,
            target_position,
            max_iterations,
            correction_limit_abs_mm,
        );
        let mut decision = requested_probe.decision;
        let mut selected_axis: Option<CollisionSlideAxis> = None;
        let mut selected_position = requested_probe.resolved_position;
        let mut selected_delta = requested_probe.resolved_delta;
        let mut attempts: Vec<CollisionSlideAttempt> = Vec::new();
        let blocked = match requested_probe.decision {
            CollisionMovementDecision::Blocked => true,
            _ => false,
        };
        if blocked {
            match (requested_probe.from, requested_probe.requested_delta) {
                (Some(from), Some(requested_delta)) => {
                    let targets = axis_slide_targets(from, requested_delta);
                    let ghost all = targets@;
                    proof {
                        assert(all.len() <= 2);
                    }
                    let mut broke = false;
                    let mut k: usize = 0;
                    while k < targets.len()
                        invariant_except_break
                            self.wf(),
                            s == self.spec_bodies(),
                            size == self.spec_cell_size(),
                            all == targets@,
                            k <= all.len(),
                            !broke,
                            attempts@.len() == k,
                            forall|j: int| 0 <= j < k ==> (#[trigger] attempts@[j]).axis == all[j].0
                                && movement_probe_matches(attempts@[j].probe, s, size, entity_id, all[j].1, max_iterations, correction_limit_abs_mm),
                            forall|j: int| 0 <= j < k ==> !slide_accepted(s, size, entity_id, #[trigger] all[j].1, max_iterations, correction_limit_abs_mm),
                            selected_axis == None::<CollisionSlideAxis>,
                            decision == requested_probe.decision,
                            selected_position == requested_probe.resolved_position,
                            selected_delta == requested_probe.resolved_delta,
                        ensures
                            s == self.spec_bodies(),
                            size == self.spec_cell_size(),
                            all == targets@,
                            0 < attempts@.len() <= all.len() || (attempts@.len() == 0 && !broke),
                            forall|j: int| 0 <= j < attempts@.len() ==> (#[trigger] attempts@[j]).axis == all[j].0
                                && movement_probe_matches(attempts@[j].probe, s, size, entity_id, all[j].1, max_iterations, correction_limit_abs_mm),
                            broke ==> forall|j: int| 0 <= j < attempts@.len() - 1 ==> !slide_accepted(s, size, entity_id, #[trigger] all[j].1, max_iterations, correction_limit_abs_mm),
                            !broke ==> attempts@.len() == all.len() && forall|j: int| 0 <= j < all.len() ==> !slide_accepted(s, size, entity_id, #[trigger] all[j].1, max_iterations, correction_limit_abs_mm),
                            broke ==> slide_accepted(s, size, entity_id, all[attempts@.len() - 1].1, max_iterations, correction_limit_abs_mm),
                            broke ==> selected_axis == Some(all[attempts@.len() - 1].0),
                            broke ==> decision == decision_for(resolved_result(s, size, entity_id, all[attempts@.len() - 1].1, max_iterations, correction_limit_abs_mm)),
                            broke ==> selected_position == resolved_position_of(s, size, entity_id, all[attempts@.len() - 1].1, max_iterations, correction_limit_abs_mm),
                            broke ==> selected_delta == resolved_delta_of(s, size, entity_id, all[attempts@.len() - 1].1, max_iterations, correction_limit_abs_mm),
                            !broke ==> selected_axis == None::<CollisionSlideAxis> && decision == requested_probe.decision
                                && selected_position == requested_probe.resolved_position && selected_delta == requested_probe.resolved_delta,
                        decreases all.len() - k,
                    {
                        let (axis, slide_target) = targets[k];
                        let probe = self.probe_movement_after_resolution_with_optional_limit(
                            entity_id,
                            slide_target,
                            max_iterations,
                            correction_limit_abs_mm,
                        );
                        let moves = match probe.resolved_delta {
                            Some(d) => d.dx_mm != 0 || d.dy_mm != 0,
                            None => false,
                        };
                        let accepted = match probe.decision {
                            CollisionMovementDecision::Accepted => moves,
                            CollisionMovementDecision::Corrected => moves,
                            _ => false,
                        };
                        if accepted {
                            decision = probe.decision;
                            selected_axis = Some(axis);
                            selected_position = probe.resolved_position;
                            selected_delta = probe.resolved_delta;
                            attempts.push(CollisionSlideAttempt { axis, probe });
                            broke = true;
                            break;
                        }
                        attempts.push(CollisionSlideAttempt { axis, probe });
                        k += 1;
                    }
                    proof {
                        let tried = tried_slides(s, size, entity_id, target_position, max_iterations, correction_limit_abs_mm);
                        if attempts@.len() > 0 && slide_accepted(s, size, entity_id, all[0].1, max_iterations, correction_limit_abs_mm) {
                            assert(tried == all.take(1));
                        } else {
                            assert(tried == all);
                        }
                    }
                },
                _ => {},
            }
        }
        let attempt_count = attempts.len();
        CollisionMovementSlideProbe {
            entity_id,
            requested_probe,
            decision,
            selected_axis,
            selected_position,
            selected_delta,
            attempt_count,
            attempts,
            claim_scope: "axis_slide_probe_only",
        }
    }

    /// Probes a move with local resolution; when it is blocked, tries the single-axis slides
    /// along the dominant axis first and takes the first one that moves the body.
    pub fn probe_movement_with_axis_slide_after_resolution(&self, entity_id: EntityId, target_position: WorldPosition, max_iterations: usize) -> (r: CollisionMovementSlideProbe)
        requires
            self.wf(),
        ensures
            slide_probe_matches(r, self.spec_bodies(), self.spec_cell_size(), entity_id, target_position, max_iterations, None),
    {
        self.probe_movement_with_axis_slide_after_resolution_with_optional_limit(entity_id, target_position, max_iterations, None)
    }

    /// Like `probe_movement_with_axis_slide_after_resolution`, with each correction scaled down
    /// to at most `correction_limit_abs_mm`.
    pub fn probe_movement_with_axis_slide_after_resolution_with_correction_limit(
        &self,
        entity_id: EntityId,
        target_position: WorldPosition,
        max_iterations: usize,
        correction_limit_abs_mm: u32,
    ) -> (r: CollisionMovementSlideProbe)
        requires
            self.wf(),
        ensures
            slide_probe_matches(r, self.spec_bodies(), self.spec_cell_size(), entity_id, target_position, max_iterations, Some(correction_limit_abs_mm)),
    {
        self.probe_movement_with_axis_slide_after_resolution_with_optional_limit(entity_id, target_position, max_iterations, Some(correction_limit_abs_mm))
    }
}

impl CollisionWorld {
    fn probe_batch_movements_after_resolution_with_optional_limit(
        &self,
        candidates: Vec<CollisionBatchMovementCandidate>,
        max_iterations: usize,
        correction_limit_abs_mm: Option<u32>,
    ) -> (r: CollisionBatchMovementProbeReport)
        requires
            self.wf(),
        ensures
            batch_report_matches(r, self.spec_bodies(), self.spec_cell_size(), candidates@, max_iterations, correction_limit_abs_mm),
    {
        let ghost s = self.bodies@;
        let ghost size = self.cell_size_mm as int;
        let ghost cs = candidates@;
        let mut candidate_world = self.duplicate();
        let mut known_candidate_count: usize = 0;
        let mut initial_rejected_count: usize = 0;
        let mut k: usize = 0;
        while k < candidates.len()
            invariant
                self.wf(),
                s == self.bodies@,
                size == self.cell_size_mm as int,
                cs == candidates@,
                k <= cs.len(),
                candidate_world.wf(),
                candidate_world.cell_size_mm == self.cell_size_mm,
                candidate_world.bodies@ == batch_world(s, cs.take(k as int)),
                known_candidate_count == known_count(s, cs.take(k as int)),
                initial_rejected_count == rejected_count(s, cs.take(k as int)),
                known_candidate_count <= k,
                initial_rejected_count <= k,
                known_candidate_count == 0 ==> candidate_world.bodies@ == s,
            decreases cs.len() - k,
        {
            let c = candidates[k];
            proof {
                assert(cs.take(k + 1).drop_last() == cs.take(k as int));
                assert(cs.take(k + 1).last() == c);
            }
            let initial = self.admit_body_position(c.entity_id, c.target_position);
            match initial.result {
                CollisionAdmissionResult::RejectedOverlap => {
                    initial_rejected_count = initial_rejected_count + 1;
                },
                _ => {},
            }
            match self.body(c.entity_id) {
                Some(body) => {
                    let moved = CollisionBody { position: c.target_position, ..body };
                    proof {
                        lemma_batch_world_ids(s, cs.take(k as int));
                        let i = index_of(s, c.entity_id);
                        assert(candidate_world.bodies@[i].entity_id == c.entity_id);
                        assert(has_body(candidate_world.bodies@, c.entity_id));
                    }
                    let _ = candidate_world.insert_or_update(moved);
                    known_candidate_count = known_candidate_count + 1;
                },
                None => {},
            }
            k += 1;
        }
        assert(cs.take(cs.len() as int) == cs);
        let ghost fw = batch_final_world(s, size, cs, max_iterations, correction_limit_abs_mm);
        let mut iterations_run: usize = 0;
        let mut applied_correction_count: usize = 0;
        let mut applied_correction_abs_mm_total: u64 = 0;
        let mut max_applied_correction_abs_mm: u32 = 0;
        let mut clamped_correction_count: usize = 0;
        let final_contact_count: usize;
        if known_candidate_count > 0 {
            let step = candidate_world.step_overlap_resolution_with_limit(max_iterations, correction_limit_abs_mm);
            iterations_run = step.iterations_run;
            applied_correction_count = step.applied_correction_count;
            applied_correction_abs_mm_total = step.applied_correction_abs_mm_total;
            max_applied_correction_abs_mm = step.max_applied_correction_abs_mm;
            clamped_correction_count = step.clamped_correction_count;
            final_contact_count = step.final_contact_count;
        } else {
            final_contact_count = self.contact_count();
        }
        assert(candidate_world.bodies@ == fw);
        let mut accepted_count: usize = 0;
        let mut corrected_count: usize = 0;
        let mut blocked_count: usize = 0;
        let mut unknown_body_count: usize = 0;
        let mut samples: Vec<CollisionBatchMovementSample> = Vec::with_capacity(candidates.len());
        let mut j: usize = 0;
        while j < candidates.len()
            invariant
                self.wf(),
                s == self.bodies@,
                cs == candidates@,
                candidate_world.wf(),
                candidate_world.bodies@ == fw,
                j <= cs.len(),
                samples@.len() == j,
                forall|m: int| 0 <= m < j ==> batch_sample_matches(#[trigger] samples@[m], s, fw, cs[m]),
                accepted_count == decision_count(s, fw, cs.take(j as int), CollisionMovementDecision::Accepted),
                corrected_count == decision_count(s, fw, cs.take(j as int), CollisionMovementDecision::Corrected),
                blocked_count == decision_count(s, fw, cs.take(j as int), CollisionMovementDecision::Blocked),
                unknown_body_count == decision_count(s, fw, cs.take(j as int), CollisionMovementDecision::UnknownBody),
                accepted_count + corrected_count + blocked_count + unknown_body_count == j,
            decreases cs.len() - j,
        {
            let c = candidates[j];
            proof {
                assert(cs.take(j + 1).drop_last() == cs.take(j as int));
                assert(cs.take(j + 1).last() == c);
            }
            let from = match self.body(c.entity_id) {
                Some(b) => Some(b.position),
                None => None,
            };
            let requested_delta = match from {
                Some(p) => Some(movement_delta_between(p, c.target_position)),
                None => None,
            };
            let initial = self.admit_body_position(c.entity_id, c.target_position);
            match candidate_world.body(c.entity_id) {
                None => {
                    unknown_body_count = unknown_body_count + 1;
                    samples.push(CollisionBatchMovementSample {
                        entity_id: c.entity_id,
                        from,
                        requested_position: c.target_position,
                        resolved_position: None,
                        requested_delta,
                        resolved_delta: None,
                        initial_result: initial.result,
                        resolved_result: CollisionResolvedAdmissionResult::UnknownBody,
                        decision: CollisionMovementDecision::UnknownBody,
                        initial_blocking_entity_ids: initial.blocking_entity_ids,
                        blocking_entity_ids: Vec::new(),
                    });
                },
                Some(resolved_body) => {
                    let blocking_entity_ids = candidate_world.overlapping_entity_ids(
                        resolved_body.position,
                        resolved_body.radius_mm,
                        Some(c.entity_id),
                    );
                    let initially_accepted = match initial.result {
                        CollisionAdmissionResult::Accepted => true,
                        _ => false,
                    };
                    let resolved_result = if blocking_entity_ids.len() == 0 {
                        if initially_accepted && resolved_body.position == c.target_position {
                            CollisionResolvedAdmissionResult::Accepted
                        } else {
                            CollisionResolvedAdmissionResult::AcceptedAfterResolution
                        }
                    } else {
                        CollisionResolvedAdmissionResult::RejectedStillOverlapping
                    };
                    let decision = match resolved_result {
                        CollisionResolvedAdmissionResult::Accepted => {
                            accepted_count = accepted_count + 1;
                            CollisionMovementDecision::Accepted
                        },
                        CollisionResolvedAdmissionResult::AcceptedAfterResolution => {
                            corrected_count = corrected_count + 1;
                            CollisionMovementDecision::Corrected
                        },
                        CollisionResolvedAdmissionResult::RejectedStillOverlapping => {
                            blocked_count = blocked_count + 1;
                            CollisionMovementDecision::Blocked
                        },
                        CollisionResolvedAdmissionResult::UnknownBody => {
                            unknown_body_count = unknown_body_count + 1;
                            CollisionMovementDecision::UnknownBody
                        },
                    };
                    let resolved_delta = match from {
                        Some(p) => Some(movement_delta_between(p, resolved_body.position)),
                        None => None,
                    };
                    samples.push(CollisionBatchMovementSample {
                        entity_id: c.entity_id,
                        from,
                        requested_position: c.target_position,
                        resolved_position: Some(resolved_body.position),
                        requested_delta,
                        resolved_delta,
                        initial_result: initial.result,
                        resolved_result,
                        decision,
                        initial_blocking_entity_ids: initial.blocking_entity_ids,
                        blocking_entity_ids,
                    });
                },
            }
            j += 1;
        }
        CollisionBatchMovementProbeReport {
            candidate_count: samples.len(),
            accepted_count,
            corrected_count,
            blocked_count,
            unknown_body_count,
            initial_rejected_count,
            iterations_requested: max_iterations,
            iterations_run,
            applied_correction_count,
            applied_correction_abs_mm_total,
            max_applied_correction_abs_mm,
            correction_limit_abs_mm,
            clamped_correction_count,
            final_contact_count,
            samples,
            claim_scope: "batch_movement_probe_only",
        }
    }

    /// Moves every known candidate to its target together, resolves the result with up to
    /// `max_iterations` rounds, and reports each candidate's outcome in candidate order.
    pub fn probe_batch_movements_after_resolution(
        &self,
        candidates: Vec<CollisionBatchMovementCandidate>,
        max_iterations: usize,
    ) -> (r: CollisionBatchMovementProbeReport)
        requires
            self.wf(),
        ensures
            batch_report_matches(r, self.spec_bodies(), self.spec_cell_size(), candidates@, max_iterations, None),
            batch_report_laws(r, self.spec_bodies(), candidates@),
    {
        let ghost cands = candidates@;
        let r = self.probe_batch_movements_after_resolution_with_optional_limit(candidates, max_iterations, None);
        proof {
            self.lemma_wf();
            lemma_batch_report_laws(r, self.spec_bodies(), self.spec_cell_size(), cands, max_iterations, None);
        }
        r
    }

    /// Like `probe_batch_movements_after_resolution`, with each correction scaled down to at
    /// most `correction_limit_abs_mm`.
    pub fn probe_batch_movements_after_resolution_with_correction_limit(
        &self,
        candidates: Vec<CollisionBatchMovementCandidate>,
        max_iterations: usize,
        correction_limit_abs_mm: u32,
    ) -> (r: CollisionBatchMovementProbeReport)
        requires
            self.wf(),
        ensures
            batch_report_matches(r, self.spec_bodies(), self.spec_cell_size(), candidates@, max_iterations, Some(correction_limit_abs_mm)),
            batch_report_laws(r, self.spec_bodies(), candidates@),
    {
        let ghost cands = candidates@;
        let r = self.probe_batch_movements_after_resolution_with_optional_limit(candidates, max_iterations, Some(correction_limit_abs_mm));
        proof {
            self.lemma_wf();
            lemma_batch_report_laws(r, self.spec_bodies(), self.spec_cell_size(), cands, max_iterations, Some(correction_limit_abs_mm));
        }
        r
    }
}

/// Reads the monotonic clock (`std::time::Instant::now`). Nothing is stated of the reading.
#[verifier::external_body]
pub(crate) fn clock_now() -> (r: std::time::Instant) {
    std::time::Instant::now()
}

/// The time passed since `start` (`std::time::Instant::elapsed`). It depends on the clock,
/// so nothing is stated of it.
#[verifier::external_body]
pub(crate) fn elapsed_since(start: &std::time::Instant) -> (r: core::time::Duration) {
    start.elapsed()
}

/// The whole number of microseconds in a duration (`core::time::Duration::as_micros`).
/// A duration is opaque here, so nothing is stated of the number.
#[verifier::external_body]
pub(crate) fn duration_micros(d: &core::time::Duration) -> (r: u128) {
    d.as_micros()
}

/// Body `index` of a clustered smoke scenario: clusters laid out on a 10 m grid, 50 to a row,
/// each holding a 5-wide block of bodies 80 mm apart.
pub open spec fn perf_body(scenario: CollisionPerfScenario, index: int) -> CollisionBody {
    let cluster_count = if scenario.cluster_count > 1 { scenario.cluster_count as int } else { 1 };
    let cluster = index % cluster_count;
    let lane = index / cluster_count;
    CollisionBody {
        entity_id: EntityId((index + 1) as u64),
        kind: CollisionBodyKind::Swarm,
        position: WorldPosition {
            x_mm: ((cluster % 50) * 10_000 + ((lane % 5) - 2) * 80) as i32,
            y_mm: ((cluster / 50) * 10_000 + ((lane / 5) - 2) * 80) as i32,
        },
        radius_mm: scenario.radius_mm,
    }
}

/// The bodies of a clustered smoke scenario, in id order.
pub open spec fn perf_bodies(scenario: CollisionPerfScenario) -> Seq<CollisionBody> {
    Seq::new(scenario.body_count as nat, |i: int| perf_body(scenario, i))
}

/// Builds the bodies of a clustered smoke scenario.
fn build_collision_perf_bodies(scenario: CollisionPerfScenario) -> (r: Vec<CollisionBody>)
    requires
        scenario.body_count <= 9_000_000,
    ensures
        r@ == perf_bodies(scenario),
{
    let mut bodies: Vec<CollisionBody> = Vec::with_capacity(scenario.body_count);
    let cluster_count = if scenario.cluster_count > 1 { scenario.cluster_count } else { 1 };
    let mut index: usize = 0;
    while index < scenario.body_count
        invariant
            scenario.body_count <= 9_000_000,
            cluster_count == (if scenario.cluster_count > 1 { scenario.cluster_count as int } else { 1 }),
            index <= scenario.body_count,
            bodies@ == perf_bodies(scenario).take(index as int),
        decreases scenario.body_count - index,
    {
        let cluster = index % cluster_count;
        let lane = index / cluster_count;
        assert(cluster < 9_000_000 && lane < 9_000_000) by (nonlinear_arith)
            requires
                index < 9_000_000,
                cluster == index % cluster_count,
                lane == index / cluster_count,
                cluster_count >= 1,
        ;
        let base_x = (cluster % 50) as i32 * 10_000;
        let base_y = (cluster / 50) as i32 * 10_000;
        let local_x = ((lane % 5) as i32 - 2) * 80;
        let local_y = ((lane / 5) as i32 - 2) * 80;
        bodies.push(CollisionBody {
            entity_id: EntityId(index as u64 + 1),
            kind: CollisionBodyKind::Swarm,
            position: WorldPosition { x_mm: base_x + local_x, y_mm: base_y + local_y },
            radius_mm: scenario.radius_mm,
        });
        proof {
            assert(bodies@ =~= perf_bodies(scenario).take(index + 1));
        }
        index += 1;
    }
    assert(perf_bodies(scenario).take(scenario.body_count as int) == perf_bodies(scenario));
    bodies
}

/// The two bodies of the static-obstacle check: a swarm body overlapping a static obstacle.
pub open spec fn static_check_bodies() -> Seq<CollisionBody> {
    seq![
        CollisionBody {
            entity_id: EntityId(900_000),
            kind: CollisionBodyKind::Swarm,
            position: WorldPosition { x_mm: 0, y_mm: 0 },
            radius_mm: 500,
        },
        CollisionBody {
            entity_id: EntityId(900_001),
            kind: CollisionBodyKind::StaticObstacle,
            position: WorldPosition { x_mm: 800, y_mm: 0 },
            radius_mm: 500,
        },
    ]
}

/// The two bodies of the clamped-correction check: two overlapping swarm bodies.
pub open spec fn clamp_check_bodies() -> Seq<CollisionBody> {
    seq![
        CollisionBody {
            entity_id: EntityId(901_000),
            kind: CollisionBodyKind::Swarm,
            position: WorldPosition { x_mm: 0, y_mm: 0 },
            radius_mm: 500,
        },
        CollisionBody {
            entity_id: EntityId(901_001),
            kind: CollisionBodyKind::Swarm,
            position: WorldPosition { x_mm: 800, y_mm: 0 },
            radius_mm: 500,
        },
    ]
}

/// How many of the first `k` smoke admissions end with `which`; admission `i` re-admits body
/// `i` at its own position with the scenario's iteration budget when `i` is even and none
/// when it is odd.
pub open spec fn admission_tally(
    s: Seq<CollisionBody>,
    cell_size_mm: int,
    max_iterations: usize,
    k: int,
    which: CollisionResolvedAdmissionResult,
) -> int
    decreases k,
{
    if k <= 0 {
        0
    } else {
        let i = k - 1;
        let budget: usize = if i % 2 == 0 { max_iterations } else { 0 };
        admission_tally(s, cell_size_mm, max_iterations, k - 1, which) + (if resolved_result(
            s,
            cell_size_mm,
            s[i].entity_id,
            s[i].position,
            budget,
            None,
        ) == which { 1int } else { 0int })
    }
}

/// The larger of an iteration budget and one.
pub open spec fn at_least_one(n: usize) -> usize {
    if n > 1 { n } else { 1 }
}

impl CollisionWorld {
    /// A world built from bodies already in id order.
    fn from_ordered(cell_size_mm: i32, bodies: Vec<CollisionBody>) -> (r: Self)
        requires
            cell_size_mm > 0,
            ids_increasing(bodies@),
            all_radii_positive(bodies@),
        ensures
            r.wf(),
            r.cell_size_mm == cell_size_mm,
            r.bodies@ == bodies@,
    {
        CollisionWorld { cell_size_mm, bodies }
    }
}

/// Runs a clustered collision smoke scenario: four resolved admissions, a static-obstacle
/// check, a clamped-correction check and a bounded resolution step, timed on the clock.
pub fn run_collision_perf_smoke(scenario: CollisionPerfScenario) -> (r: CollisionPerfRun)
    requires
        scenario.cell_size_mm > 0,
        scenario.radius_mm > 0,
        scenario.body_count <= 9_000_000,
    ensures
        ({
            let s = perf_bodies(scenario);
            let size = scenario.cell_size_mm as int;
            let checks = if s.len() < 4 { s.len() as int } else { 4 };
            let t = resolution_trace(s, size, None, scenario.max_iterations as nat);
            let st = resolution_trace(static_check_bodies(), 1_000, None, at_least_one(scenario.max_iterations) as nat);
            let ct = resolution_trace(clamp_check_bodies(), 1_000, Some(COLLISION_STABILITY_CLAMP_LIMIT_ABS_MM), at_least_one(scenario.max_iterations) as nat);
            &&& r.scenario_id == scenario.id
            &&& r.body_count == scenario.body_count
            &&& r.cluster_count == scenario.cluster_count
            &&& r.resolved_admission_check_count == checks
            &&& r.resolved_admission_accepted_after_resolution_count == admission_tally(s, size, scenario.max_iterations, checks,
                CollisionResolvedAdmissionResult::AcceptedAfterResolution)
            &&& r.resolved_admission_rejected_count == admission_tally(s, size, scenario.max_iterations, checks,
                CollisionResolvedAdmissionResult::RejectedStillOverlapping)
            &&& r.static_obstacle_resolution_check_count == (if overlap_contacts(static_check_bodies(), 1_000).len() > 0 { 1int } else { 0int })
            &&& r.static_obstacle_correction_count == clamp_usize(st.2)
            &&& r.clamped_resolution_check_count == 1
            &&& r.clamped_correction_limit_abs_mm == COLLISION_STABILITY_CLAMP_LIMIT_ABS_MM
            &&& r.clamped_correction_count == clamp_usize(ct.5)
            &&& r.clamped_max_applied_correction_abs_mm == ct.4
            &&& r.initial_contact_count == overlap_contacts(s, size).len()
            &&& r.iterations_requested == scenario.max_iterations
            &&& r.iterations_run == t.1
            &&& r.applied_correction_count == clamp_usize(t.2)
            &&& r.applied_correction_abs_mm_total == clamp_u64(t.3)
            &&& r.max_applied_correction_abs_mm == t.4
            &&& r.final_contact_count == overlap_contacts(t.0, size).len()
            &&& r.budget_result@ == "blocked"@
            &&& r.claim_scope@ == "local_smoke_only"@
            &&& r.elapsed_us >= 1
        }),
{
    let started = clock_now();
    let bodies = build_collision_perf_bodies(scenario);
    let ghost s = bodies@;
    let ghost size = scenario.cell_size_mm as int;
    let mut world = CollisionWorld::from_ordered(scenario.cell_size_mm, bodies);
    let initial_contact_count = world.contact_count();
    let checks: usize = if world.bodies.len() < 4 { world.bodies.len() } else { 4 };
    let mut accepted_after: usize = 0;
    let mut rejected: usize = 0;
    let mut k: usize = 0;
    while k < checks
        invariant
            world.wf(),
            world.bodies@ == s,
            world.cell_size_mm as int == size,
            checks <= 4,
            checks <= s.len(),
            k <= checks,
            accepted_after == admission_tally(s, size, scenario.max_iterations, k as int, CollisionResolvedAdmissionResult::AcceptedAfterResolution),
            rejected == admission_tally(s, size, scenario.max_iterations, k as int, CollisionResolvedAdmissionResult::RejectedStillOverlapping),
            accepted_after <= k,
            rejected <= k,
        decreases checks - k,
    {
        let body = world.bodies[k];
        let budget: usize = if k % 2 == 0 { scenario.max_iterations } else { 0 };
        let admission = world.admit_body_position_after_resolution(body.entity_id, body.position, budget);
        match admission.result {
            CollisionResolvedAdmissionResult::AcceptedAfterResolution => {
                accepted_after = accepted_after + 1;
            },
            CollisionResolvedAdmissionResult::RejectedStillOverlapping => {
                rejected = rejected + 1;
            },
            _ => {},
        }
        k += 1;
    }
    let static_step = run_static_obstacle_resolution_check(scenario.max_iterations);
    let clamped_step = run_clamped_resolution_check(scenario.max_iterations, COLLISION_STABILITY_CLAMP_LIMIT_ABS_MM);
    let step = world.step_overlap_resolution(scenario.max_iterations);
    let micros = duration_micros(&elapsed_since(&started));
    let elapsed: u64 = if micros > 0xffff_ffff_ffff_ffffu128 {
        0xffff_ffff_ffff_ffffu64
    } else if micros > 1 {
        micros as u64
    } else {
        1
    };
    CollisionPerfRun {
        scenario_id: scenario.id,
        body_count: scenario.body_count,
        cluster_count: scenario.cluster_count,
        resolved_admission_check_count: checks,
        resolved_admission_accepted_after_resolution_count: accepted_after,
        resolved_admission_rejected_count: rejected,
        static_obstacle_resolution_check_count: if static_step.initial_contact_count > 0 { 1 } else { 0 },
        static_obstacle_correction_count: static_step.applied_correction_count,
        clamped_resolution_check_count: match clamped_step.correction_limit_abs_mm {
            Some(_) => 1,
            None => 0,
        },
        clamped_correction_limit_abs_mm: COLLISION_STABILITY_CLAMP_LIMIT_ABS_MM,
        clamped_correction_count: clamped_step.clamped_correction_count,
        clamped_max_applied_correction_abs_mm: clamped_step.max_applied_correction_abs_mm,
        initial_contact_count,
        iterations_requested: scenario.max_iterations,
        iterations_run: step.iterations_run,
        applied_correction_count: step.applied_correction_count,
        applied_correction_abs_mm_total: step.applied_correction_abs_mm_total,
        max_applied_correction_abs_mm: step.max_applied_correction_abs_mm,
        final_contact_count: step.final_contact_count,
        elapsed_us: elapsed,
        budget_result: "blocked",
        claim_scope: "local_smoke_only",
    }
}

/// One bounded resolution of a swarm body overlapping a static obstacle.
fn run_static_obstacle_resolution_check(max_iterations: usize) -> (r: CollisionPhysicsStep)
    ensures
        ({
            let t = resolution_trace(static_check_bodies(), 1_000, None, at_least_one(max_iterations) as nat);
            &&& r.initial_contact_count == overlap_contacts(static_check_bodies(), 1_000).len()
            &&& r.applied_correction_count == clamp_usize(t.2)
        }),
{
    let mut bodies: Vec<CollisionBody> = Vec::new();
    bodies.push(CollisionBody {
        entity_id: EntityId(900_000),
        kind: CollisionBodyKind::Swarm,
        position: WorldPosition { x_mm: 0, y_mm: 0 },
        radius_mm: 500,
    });
    bodies.push(CollisionBody {
        entity_id: EntityId(900_001),
        kind: CollisionBodyKind::StaticObstacle,
        position: WorldPosition { x_mm: 800, y_mm: 0 },
        radius_mm: 500,
    });
    assert(bodies@ =~= static_check_bodies());
    let mut world = CollisionWorld::from_ordered(1_000, bodies);
    world.step_overlap_resolution(if max_iterations > 1 { max_iterations } else { 1 })
}

/// One bounded, clamped resolution of two overlapping swarm bodies.
fn run_clamped_resolution_check(max_iterations: usize, correction_limit_abs_mm: u32) -> (r: CollisionPhysicsStep)
    ensures
        ({
            let t = resolution_trace(clamp_check_bodies(), 1_000, Some(correction_limit_abs_mm), at_least_one(max_iterations) as nat);
            &&& r.correction_limit_abs_mm == Some(correction_limit_abs_mm)
            &&& r.clamped_correction_count == clamp_usize(t.5)
            &&& r.max_applied_correction_abs_mm == t.4
        }),
{
    let mut bodies: Vec<CollisionBody> = Vec::new();
    bodies.push(CollisionBody {
        entity_id: EntityId(901_000),
        kind: CollisionBodyKind::Swarm,
        position: WorldPosition { x_mm: 0, y_mm: 0 },
        radius_mm: 500,
    });
    bodies.push(CollisionBody {
        entity_id: EntityId(901_001),
        kind: CollisionBodyKind::Swarm,
        position: WorldPosition { x_mm: 800, y_mm: 0 },
        radius_mm: 500,
    });
    assert(bodies@ =~= clamp_check_bodies());
    let mut world = CollisionWorld::from_ordered(1_000, bodies);
    world.step_overlap_resolution_with_correction_limit(if max_iterations > 1 { max_iterations } else { 1 }, correction_limit_abs_mm)
}

} // verus!
