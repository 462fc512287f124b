use vstd::prelude::*;

use crate::arith::{clamp_i32, sat_add_i32, sat_sub_i32};
use crate::map_data::{
    lemma_validated_shape_ids_unique, map_validation, same_text, validate_map_data_import, MapDataImport,
    MapDataValidationError, MapPoint, MapShape,
};
use crate::movement_scale::{bytes_less, lemma_lex_u8_order, lemma_lex_u8_total, lex_less_u8};
use crate::simulation::{EntityId, WorldPosition};

verus! {

pub const COVER_SCHEMA: &'static str = "millions_cover_v0";

pub const COVER_PERF_CLAIM_SCOPE: &'static str = "informational_contract_only";

#[derive(Debug, Clone, PartialEq, Eq)]
pub struct AxisAlignedVolume {
    pub id: String,
    pub class_label: String,
    pub min: MapPoint,
    pub max: MapPoint,
}

#[derive(Debug, Clone, PartialEq, Eq)]
pub struct CoverObject {
    pub id: String,
    pub class_label: String,
    pub volume: AxisAlignedVolume,
    pub slot_capacity: usize,
}

/// The entities holding slots of one cover object, in increasing id order.
#[derive(Debug, Clone, PartialEq, Eq)]
pub struct CoverOccupancy {
    pub cover_id: String,
    pub slot_capacity: usize,
    pub occupants: Vec<EntityId>,
}

#[derive(Debug, Clone, PartialEq, Eq)]
pub struct LineQuery {
    pub from: WorldPosition,
    pub to: WorldPosition,
    pub clear: bool,
    pub blocking_obstacle_id: Option<String>,
}

#[derive(Debug, Clone, PartialEq, Eq)]
pub struct TargetingQuery {
    pub attacker_id: EntityId,
    pub target_id: EntityId,
    pub distance_sq_mm: i64,
    pub max_range_mm: u32,
    pub line_of_fire: LineQuery,
    pub target_cover_id: Option<String>,
    pub result: TargetingResult,
}

#[derive(Debug, Clone, Copy, PartialEq, Eq, Structural)]
pub enum TargetingResult {
    InRangeClear,
    InRangeTargetInCover,
    OutOfRange,
    BlockedByObstacle,
}

#[derive(Debug, Clone, PartialEq, Eq)]
pub struct CoverCombatPerfRun {
    pub query_count: usize,
    pub in_range_clear: usize,
    pub in_range_target_in_cover: usize,
    pub blocked_by_obstacle: usize,
    pub out_of_range: usize,
    pub claim_scope: &'static str,
}

#[derive(Debug, Clone, Copy, PartialEq, Eq, Structural)]
pub enum CoverError {
    InvalidMapData(MapDataValidationError),
    UnknownCoverId,
    CoverFull,
}

// ---------------------------------------------------------------------------------------------
// Order of ids and first matches
// ---------------------------------------------------------------------------------------------

/// Ids are ordered as strings are: by their UTF-8 bytes, lexicographically.
pub open spec fn id_before(a: Seq<char>, b: Seq<char>) -> bool {
    lex_less_u8(vstd::utf8::encode_utf8(a), vstd::utf8::encode_utf8(b), 0)
}

proof fn lemma_id_order(a: Seq<char>, b: Seq<char>, c: Seq<char>)
    ensures
        !id_before(a, a),
        id_before(a, b) && id_before(b, c) ==> id_before(a, c),
        a != b ==> id_before(a, b) || id_before(b, a),
{
    let ea = vstd::utf8::encode_utf8(a);
    let eb = vstd::utf8::encode_utf8(b);
    lemma_lex_u8_order(ea, eb, vstd::utf8::encode_utf8(c), 0);
    if a != b && !id_before(a, b) && !id_before(b, a) {
        lemma_lex_u8_total(ea, eb, 0);
        vstd::utf8::encode_utf8_decode_utf8(a);
        vstd::utf8::encode_utf8_decode_utf8(b);
    }
}

fn text_before(a: &String, b: &String) -> (r: bool)
    ensures
        r == id_before(a@, b@),
{
    bytes_less(a.as_str().as_bytes(), b.as_str().as_bytes())
}

/// The index of the first element that satisfies `f`, or the length where none does.
pub open spec fn first_index<A>(s: Seq<A>, f: spec_fn(A) -> bool) -> int
    decreases s.len(),
{
    if s.len() == 0 {
        0
    } else if f(s[0]) {
        0
    } else {
        1 + first_index(s.drop_first(), f)
    }
}

proof fn lemma_first_index<A>(s: Seq<A>, f: spec_fn(A) -> bool, k: int)
    requires
        0 <= k <= s.len(),
        forall|j: int| 0 <= j < k ==> !f(#[trigger] s[j]),
        k < s.len() ==> f(s[k]),
    ensures
        first_index(s, f) == k,
    decreases s.len(),
{
    if s.len() > 0 && k > 0 {
        assert forall|j: int| 0 <= j < k - 1 implies !f(#[trigger] s.drop_first()[j]) by {
            assert(s.drop_first()[j] == s[j + 1]);
        }
        lemma_first_index(s.drop_first(), f, k - 1);
    }
}

// ---------------------------------------------------------------------------------------------
// Volumes and segments
// ---------------------------------------------------------------------------------------------

/// The volume of a map shape: its centre plus and minus its half extents, saturated into
/// `i32`.
pub open spec fn volume_of_shape(shape: MapShape) -> AxisAlignedVolume {
    AxisAlignedVolume {
        id: shape.id,
        class_label: shape.class_label,
        min: MapPoint {
            x_mm: clamp_i32(shape.center.x_mm - shape.half_extents_mm.x_mm) as i32,
            y_mm: clamp_i32(shape.center.y_mm - shape.half_extents_mm.y_mm) as i32,
        },
        max: MapPoint {
            x_mm: clamp_i32(shape.center.x_mm + shape.half_extents_mm.x_mm) as i32,
            y_mm: clamp_i32(shape.center.y_mm + shape.half_extents_mm.y_mm) as i32,
        },
    }
}

/// The cover slots of a volume: one per whole metre of width, at least one.
pub open spec fn slots_for_volume(volume: AxisAlignedVolume) -> int {
    let w = clamp_i32(volume.max.x_mm - volume.min.x_mm);
    let width = if w < 1 { 1 } else { w };
    if width / 1000 < 1 { 1 } else { width / 1000 }
}

pub open spec fn cover_of_shape(shape: MapShape) -> CoverObject {
    CoverObject {
        id: shape.id,
        class_label: shape.class_label,
        volume: volume_of_shape(shape),
        slot_capacity: slots_for_volume(volume_of_shape(shape)) as usize,
    }
}

pub open spec fn volume_contains(volume: AxisAlignedVolume, point: MapPoint) -> bool {
    volume.min.x_mm <= point.x_mm <= volume.max.x_mm && volume.min.y_mm <= point.y_mm <= volume.max.y_mm
}

/// Twice the signed area of the triangle `a b c`: positive when `c` lies to the left of `a b`.
pub open spec fn orient(a: MapPoint, b: MapPoint, c: MapPoint) -> int {
    (b.x_mm - a.x_mm) * (c.y_mm - a.y_mm) - (b.y_mm - a.y_mm) * (c.x_mm - a.x_mm)
}

/// The orientation of `a b c` is computed in `i64` without overflow.
pub open spec fn orient_fits(a: MapPoint, b: MapPoint, c: MapPoint) -> bool {
    let p = (b.x_mm - a.x_mm) * (c.y_mm - a.y_mm);
    let q = (b.y_mm - a.y_mm) * (c.x_mm - a.x_mm);
    &&& i64::MIN <= p <= i64::MAX
    &&& i64::MIN <= q <= i64::MAX
    &&& i64::MIN <= p - q <= i64::MAX
}

/// Whether `b` lies in the bounding box of `a` and `c`.
pub open spec fn in_box(a: MapPoint, b: MapPoint, c: MapPoint) -> bool {
    let (lx, hx) = if a.x_mm <= c.x_mm { (a.x_mm, c.x_mm) } else { (c.x_mm, a.x_mm) };
    let (ly, hy) = if a.y_mm <= c.y_mm { (a.y_mm, c.y_mm) } else { (c.y_mm, a.y_mm) };
    lx <= b.x_mm <= hx && ly <= b.y_mm <= hy
}

/// Whether segments `a b` and `c d` meet: an end of one lies on the other, or they cross.
pub open spec fn segments_meet(a: MapPoint, b: MapPoint, c: MapPoint, d: MapPoint) -> bool {
    let o1 = orient(a, b, c);
    let o2 = orient(a, b, d);
    let o3 = orient(c, d, a);
    let o4 = orient(c, d, b);
    (o1 == 0 && in_box(a, c, b)) || (o2 == 0 && in_box(a, d, b)) || (o3 == 0 && in_box(c, a, d)) || (o4 == 0
        && in_box(c, b, d)) || ((o1 > 0) != (o2 > 0) && (o3 > 0) != (o4 > 0))
}

pub open spec fn segments_fit(a: MapPoint, b: MapPoint, c: MapPoint, d: MapPoint) -> bool {
    orient_fits(a, b, c) && orient_fits(a, b, d) && orient_fits(c, d, a) && orient_fits(c, d, b)
}

/// Corner `k` of a volume, counter-clockwise from its minimum.
pub open spec fn corner(volume: AxisAlignedVolume, k: int) -> MapPoint {
    if k == 0 {
        volume.min
    } else if k == 1 {
        MapPoint { x_mm: volume.max.x_mm, y_mm: volume.min.y_mm }
    } else if k == 2 {
        volume.max
    } else {
        MapPoint { x_mm: volume.min.x_mm, y_mm: volume.max.y_mm }
    }
}

pub open spec fn edge_meets(volume: AxisAlignedVolume, from: MapPoint, to: MapPoint, k: int) -> bool {
    segments_meet(from, to, corner(volume, k), corner(volume, (k + 1) % 4))
}

pub open spec fn edge_fits(volume: AxisAlignedVolume, from: MapPoint, to: MapPoint, k: int) -> bool {
    segments_fit(from, to, corner(volume, k), corner(volume, (k + 1) % 4))
}

/// Whether a segment touches a volume: an end lies inside, or it meets one of the edges.
pub open spec fn volume_meets_segment(volume: AxisAlignedVolume, from: MapPoint, to: MapPoint) -> bool {
    volume_contains(volume, from) || volume_contains(volume, to) || exists|k: int|
        0 <= k < 4 && #[trigger] edge_meets(volume, from, to, k)
}

/// The test of a segment against a volume stays in `i64`: each edge that it reaches, after
/// the ends and the edges before it, is computed without overflow.
pub open spec fn volume_test_fits(volume: AxisAlignedVolume, from: MapPoint, to: MapPoint) -> bool {
    volume_contains(volume, from) || volume_contains(volume, to) || forall|k: int|
        0 <= k < 4 && (forall|j: int| 0 <= j < k ==> !#[trigger] edge_meets(volume, from, to, j)) ==> #[trigger] edge_fits(
            volume,
            from,
            to,
            k,
        )
}

fn orientation(a: MapPoint, b: MapPoint, c: MapPoint) -> (r: i64)
    requires
        orient_fits(a, b, c),
    ensures
        r == orient(a, b, c),
{
    let ab_x = b.x_mm as i64 - a.x_mm as i64;
    let ab_y = b.y_mm as i64 - a.y_mm as i64;
    let ac_x = c.x_mm as i64 - a.x_mm as i64;
    let ac_y = c.y_mm as i64 - a.y_mm as i64;
    ab_x * ac_y - ab_y * ac_x
}

fn on_segment(a: MapPoint, b: MapPoint, c: MapPoint) -> (r: bool)
    ensures
        r == in_box(a, b, c),
{
    let lx = if a.x_mm <= c.x_mm { a.x_mm } else { c.x_mm };
    let hx = if a.x_mm <= c.x_mm { c.x_mm } else { a.x_mm };
    let ly = if a.y_mm <= c.y_mm { a.y_mm } else { c.y_mm };
    let hy = if a.y_mm <= c.y_mm { c.y_mm } else { a.y_mm };
    b.x_mm >= lx && b.x_mm <= hx && b.y_mm >= ly && b.y_mm <= hy
}

fn segments_intersect(a: MapPoint, b: MapPoint, c: MapPoint, d: MapPoint) -> (r: bool)
    requires
        segments_fit(a, b, c, d),
    ensures
        r == segments_meet(a, b, c, d),
{
    let o1 = orientation(a, b, c);
    let o2 = orientation(a, b, d);
    let o3 = orientation(c, d, a);
    let o4 = orientation(c, d, b);
    if o1 == 0 && on_segment(a, c, b) {
        return true;
    }
    if o2 == 0 && on_segment(a, d, b) {
        return true;
    }
    if o3 == 0 && on_segment(c, a, d) {
        return true;
    }
    if o4 == 0 && on_segment(c, b, d) {
        return true;
    }
    (o1 > 0) != (o2 > 0) && (o3 > 0) != (o4 > 0)
}

impl AxisAlignedVolume {
    pub fn from_shape(shape: &MapShape) -> (r: Self)
        ensures
            r == volume_of_shape(*shape),
            r.id == shape.id,
            i32::MIN <= shape.center.x_mm - shape.half_extents_mm.x_mm <= i32::MAX ==> r.min.x_mm == shape.center.x_mm
                - shape.half_extents_mm.x_mm,
            i32::MIN <= shape.center.y_mm - shape.half_extents_mm.y_mm <= i32::MAX ==> r.min.y_mm == shape.center.y_mm
                - shape.half_extents_mm.y_mm,
            i32::MIN <= shape.center.x_mm + shape.half_extents_mm.x_mm <= i32::MAX ==> r.max.x_mm == shape.center.x_mm
                + shape.half_extents_mm.x_mm,
            i32::MIN <= shape.center.y_mm + shape.half_extents_mm.y_mm <= i32::MAX ==> r.max.y_mm == shape.center.y_mm
                + shape.half_extents_mm.y_mm,
            shape.half_extents_mm.x_mm >= 0 && shape.half_extents_mm.y_mm >= 0 ==> r.min.x_mm <= shape.center.x_mm
                <= r.max.x_mm && r.min.y_mm <= shape.center.y_mm <= r.max.y_mm,
    {
        let min = MapPoint {
            x_mm: sat_sub_i32(shape.center.x_mm, shape.half_extents_mm.x_mm),
            y_mm: sat_sub_i32(shape.center.y_mm, shape.half_extents_mm.y_mm),
        };
        let max = MapPoint {
            x_mm: sat_add_i32(shape.center.x_mm, shape.half_extents_mm.x_mm),
            y_mm: sat_add_i32(shape.center.y_mm, shape.half_extents_mm.y_mm),
        };
        Self { id: shape.id.clone(), class_label: shape.class_label.clone(), min, max }
    }

    pub fn contains_point(&self, point: MapPoint) -> (r: bool)
        ensures
            r == volume_contains(*self, point),
            r == (self.min.x_mm <= point.x_mm && point.x_mm <= self.max.x_mm && self.min.y_mm <= point.y_mm
                && point.y_mm <= self.max.y_mm),
    {
        point.x_mm >= self.min.x_mm && point.x_mm <= self.max.x_mm && point.y_mm >= self.min.y_mm
            && point.y_mm <= self.max.y_mm
    }

    /// Whether the segment from `from` to `to` touches the volume.
    pub fn intersects_segment(&self, from: MapPoint, to: MapPoint) -> (r: bool)
        requires
            volume_test_fits(*self, from, to),
        ensures
            r == volume_meets_segment(*self, from, to),
    {
        if self.contains_point(from) || self.contains_point(to) {
            return true;
        }
        let corners: [MapPoint; 4] = [
            self.min,
            MapPoint { x_mm: self.max.x_mm, y_mm: self.min.y_mm },
            self.max,
            MapPoint { x_mm: self.min.x_mm, y_mm: self.max.y_mm },
        ];
        let mut index: usize = 0;
        while index < 4
            invariant
                index <= 4,
                !volume_contains(*self, from),
                !volume_contains(*self, to),
                volume_test_fits(*self, from, to),
                forall|k: int| 0 <= k < 4 ==> corners@[k] == corner(*self, k),
                forall|j: int| 0 <= j < index ==> !#[trigger] edge_meets(*self, from, to, j),
            decreases 4 - index,
        {
            let edge_start = corners[index];
            let edge_end = corners[(index + 1) % 4];
            assert(edge_fits(*self, from, to, index as int));
            assert(corner(*self, (index + 1) % 4) == corners@[((index + 1) % 4) as int]);
            if segments_intersect(from, to, edge_start, edge_end) {
                assert(edge_meets(*self, from, to, index as int));
                return true;
            }
            index += 1;
        }
        false
    }
}

impl CoverObject {
    pub fn from_shape(shape: &MapShape) -> (r: Self)
        ensures
            r == cover_of_shape(*shape),
    {
        let volume = AxisAlignedVolume::from_shape(shape);
        let w = sat_sub_i32(volume.max.x_mm, volume.min.x_mm);
        let width_mm = if w < 1 { 1 } else { w };
        let slots = if width_mm / 1000 < 1 { 1 } else { width_mm / 1000 };
        let slot_capacity = slots as usize;
        Self { id: shape.id.clone(), class_label: shape.class_label.clone(), volume, slot_capacity }
    }
}

fn distance_sq(from: WorldPosition, to: WorldPosition) -> (r: i64)
    requires
        distance_fits(from, to),
    ensures
        r == distance_sq_spec(from, to),
{
    let dx = to.x_mm as i64 - from.x_mm as i64;
    let dy = to.y_mm as i64 - from.y_mm as i64;
    assert(0 <= dx * dx && 0 <= dy * dy) by (nonlinear_arith);
    dx * dx + dy * dy
}

pub open spec fn distance_sq_spec(from: WorldPosition, to: WorldPosition) -> int {
    (to.x_mm - from.x_mm) * (to.x_mm - from.x_mm) + (to.y_mm - from.y_mm) * (to.y_mm - from.y_mm)
}

/// The squared distance is computed in `i64` without overflow.
pub open spec fn distance_fits(from: WorldPosition, to: WorldPosition) -> bool {
    distance_sq_spec(from, to) <= i64::MAX
}

pub open spec fn point_of(position: WorldPosition) -> MapPoint {
    MapPoint { x_mm: position.x_mm, y_mm: position.y_mm }
}

pub open spec fn contains_pred(point: MapPoint) -> spec_fn(AxisAlignedVolume) -> bool {
    |v: AxisAlignedVolume| volume_contains(v, point)
}

pub open spec fn cover_contains_pred(point: MapPoint) -> spec_fn(CoverObject) -> bool {
    |c: CoverObject| volume_contains(c.volume, point)
}

pub open spec fn meets_pred(from: MapPoint, to: MapPoint) -> spec_fn(AxisAlignedVolume) -> bool {
    |v: AxisAlignedVolume| volume_meets_segment(v, from, to)
}

pub open spec fn occupancy_pred(cover_id: Seq<char>) -> spec_fn(CoverOccupancy) -> bool {
    |o: CoverOccupancy| o.cover_id@ == cover_id
}

pub open spec fn volumes_sorted(s: Seq<AxisAlignedVolume>) -> bool {
    forall|i: int, j: int| 0 <= i < j < s.len() ==> id_before(s[i].id@, s[j].id@)
}

pub open spec fn covers_sorted(s: Seq<CoverObject>) -> bool {
    forall|i: int, j: int| 0 <= i < j < s.len() ==> id_before(s[i].id@, s[j].id@)
}

pub open spec fn ids_increasing(s: Seq<EntityId>) -> bool {
    forall|i: int, j: int| 0 <= i < j < s.len() ==> s[i].0 < s[j].0
}

/// Where an entity goes in an id-ordered list: after every lower id.
pub open spec fn entity_slot(s: Seq<EntityId>, e: EntityId) -> int
    decreases s.len(),
{
    if s.len() == 0 {
        0
    } else if s.last().0 < e.0 {
        s.len() as int
    } else {
        entity_slot(s.drop_last(), e)
    }
}

proof fn lemma_entity_slot(s: Seq<EntityId>, e: EntityId, k: int)
    requires
        0 <= k <= s.len(),
        forall|i: int| 0 <= i < k ==> s[i].0 < e.0,
        forall|i: int| k <= i < s.len() ==> s[i].0 >= e.0,
    ensures
        entity_slot(s, e) == k,
    decreases s.len(),
{
    if s.len() > 0 && s.last().0 >= e.0 {
        lemma_entity_slot(s.drop_last(), e, k);
    }
}

/// The cover and combat view of a validated map: its obstacles and cover objects, each kind
/// ordered by id, and the slots held in each cover object.
#[derive(Debug, Clone, PartialEq, Eq)]
pub struct CoverCombatMap {
    map_id: String,
    map_version: u32,
    checksum: String,
    obstacles: Vec<AxisAlignedVolume>,
    cover_objects: Vec<CoverObject>,
    occupancy: Vec<CoverOccupancy>,
}

/// The occupancy records stand beside the cover objects, one each, with a sorted set of
/// occupants no larger than the capacity.
pub open spec fn occupancy_matches(covers: Seq<CoverObject>, occupancy: Seq<CoverOccupancy>) -> bool {
    &&& occupancy.len() == covers.len()
    &&& forall|k: int|
        0 <= k < occupancy.len() ==> {
            &&& (#[trigger] occupancy[k]).cover_id == covers[k].id
            &&& occupancy[k].slot_capacity == covers[k].slot_capacity
            &&& ids_increasing(occupancy[k].occupants@)
            &&& occupancy[k].occupants@.len() <= occupancy[k].slot_capacity
        }
}

/// What claiming a slot of a cover object gives: the cover must exist; an entity that holds
/// a slot keeps it; otherwise a free slot is needed.
pub open spec fn claim_outcome(occupancy: Seq<CoverOccupancy>, cover_id: Seq<char>, entity_id: EntityId) -> Result<
    (),
    CoverError,
> {
    let k = first_index(occupancy, occupancy_pred(cover_id));
    if k >= occupancy.len() {
        Err(CoverError::UnknownCoverId)
    } else if occupancy[k].occupants@.contains(entity_id) {
        Ok(())
    } else if occupancy[k].occupants@.len() >= occupancy[k].slot_capacity {
        Err(CoverError::CoverFull)
    } else {
        Ok(())
    }
}

/// The result of a targeting query between two positions.
pub open spec fn targeting_result(
    obstacles: Seq<AxisAlignedVolume>,
    covers: Seq<CoverObject>,
    attacker: WorldPosition,
    target: WorldPosition,
    max_range_mm: u32,
) -> TargetingResult {
    if distance_sq_spec(attacker, target) > max_range_mm * max_range_mm {
        TargetingResult::OutOfRange
    } else if first_index(obstacles, meets_pred(point_of(attacker), point_of(target))) < obstacles.len() {
        TargetingResult::BlockedByObstacle
    } else if first_index(covers, cover_contains_pred(point_of(target))) < covers.len() {
        TargetingResult::InRangeTargetInCover
    } else {
        TargetingResult::InRangeClear
    }
}

/// Every segment test of a line query stays in `i64`: each obstacle that the scan reaches.
pub open spec fn line_fits(obstacles: Seq<AxisAlignedVolume>, from: MapPoint, to: MapPoint) -> bool {
    forall|i: int|
        0 <= i < obstacles.len() && (forall|j: int| 0 <= j < i ==> !volume_meets_segment(#[trigger] obstacles[j], from, to))
            ==> volume_test_fits(#[trigger] obstacles[i], from, to)
}

/// A targeting query stays in `i64`: the squared distance and range, and the line query
/// where the target is in range.
pub open spec fn targeting_fits(
    obstacles: Seq<AxisAlignedVolume>,
    attacker: WorldPosition,
    target: WorldPosition,
    max_range_mm: u32,
) -> bool {
    &&& distance_fits(attacker, target)
    &&& max_range_mm * max_range_mm <= i64::MAX
    &&& distance_sq_spec(attacker, target) <= max_range_mm * max_range_mm ==> line_fits(
        obstacles,
        point_of(attacker),
        point_of(target),
    )
}

/// How many targets of one attacker give `kind`.
pub open spec fn row_count(
    obstacles: Seq<AxisAlignedVolume>,
    covers: Seq<CoverObject>,
    attacker: WorldPosition,
    targets: Seq<WorldPosition>,
    max_range_mm: u32,
    kind: TargetingResult,
) -> nat
    decreases targets.len(),
{
    if targets.len() == 0 {
        0
    } else {
        row_count(obstacles, covers, attacker, targets.drop_last(), max_range_mm, kind) + if targeting_result(
            obstacles,
            covers,
            attacker,
            targets.last(),
            max_range_mm,
        ) == kind {
            1nat
        } else {
            0nat
        }
    }
}

/// How many attacker and target pairs give `kind`.
pub open spec fn pair_count(
    obstacles: Seq<AxisAlignedVolume>,
    covers: Seq<CoverObject>,
    attackers: Seq<WorldPosition>,
    targets: Seq<WorldPosition>,
    max_range_mm: u32,
    kind: TargetingResult,
) -> nat
    decreases attackers.len(),
{
    if attackers.len() == 0 {
        0
    } else {
        pair_count(obstacles, covers, attackers.drop_last(), targets, max_range_mm, kind) + row_count(
            obstacles,
            covers,
            attackers.last(),
            targets,
            max_range_mm,
            kind,
        )
    }
}

impl CoverCombatMap {
    pub closed spec fn wf(&self) -> bool {
        &&& volumes_sorted(self.obstacles@)
        &&& covers_sorted(self.cover_objects@)
        &&& occupancy_matches(self.cover_objects@, self.occupancy@)
    }

    pub closed spec fn spec_map_id(&self) -> Seq<char> {
        self.map_id@
    }

    pub closed spec fn spec_map_version(&self) -> u32 {
        self.map_version
    }

    pub closed spec fn spec_checksum(&self) -> Seq<char> {
        self.checksum@
    }

    /// The obstacles, by id.
    pub closed spec fn spec_obstacles(&self) -> Seq<AxisAlignedVolume> {
        self.obstacles@
    }

    /// The cover objects, by id.
    pub closed spec fn spec_covers(&self) -> Seq<CoverObject> {
        self.cover_objects@
    }

    /// The occupancy of each cover object, in the order of the cover objects.
    pub closed spec fn spec_occupancy(&self) -> Seq<CoverOccupancy> {
        self.occupancy@
    }

    fn insert_obstacle(obstacles: &mut Vec<AxisAlignedVolume>, volume: AxisAlignedVolume)
        requires
            volumes_sorted(old(obstacles)@),
            forall|i: int| 0 <= i < old(obstacles)@.len() ==> old(obstacles)@[i].id@ != volume.id@,
        ensures
            volumes_sorted(final(obstacles)@),
            final(obstacles)@.len() == old(obstacles)@.len() + 1,
            final(obstacles)@.contains(volume),
            forall|x: AxisAlignedVolume| old(obstacles)@.contains(x) ==> final(obstacles)@.contains(x),
            forall|x: AxisAlignedVolume| final(obstacles)@.contains(x) ==> old(obstacles)@.contains(x) || x == volume,
    {
        let ghost s0 = obstacles@;
        let mut k: usize = 0;
        while k < obstacles.len() && text_before(&obstacles[k].id, &volume.id)
            invariant
                k <= obstacles@.len(),
                obstacles@ == s0,
                forall|i: int| 0 <= i < k ==> id_before(s0[i].id@, volume.id@),
            decreases obstacles@.len() - k,
        {
            k += 1;
        }
        proof {
            if k < s0.len() {
                lemma_id_order(s0[k as int].id@, volume.id@, volume.id@);
            }
            assert forall|j: int| k <= j < s0.len() implies id_before(volume.id@, s0[j].id@) by {
                lemma_id_order(volume.id@, s0[k as int].id@, s0[j].id@);
                lemma_id_order(s0[k as int].id@, volume.id@, s0[j].id@);
            }
        }
        obstacles.insert(k, volume);
        proof {
            let s1 = obstacles@;
            assert(s1[k as int] == volume);
            assert forall|a: int, b: int| 0 <= a < b < s1.len() implies id_before(s1[a].id@, s1[b].id@) by {
                if b < k {
                } else if b == k {
                } else if a < k {
                    assert(s1[b] == s0[b - 1]);
                } else if a == k {
                    assert(s1[b] == s0[b - 1]);
                } else {
                    assert(s1[a] == s0[a - 1]);
                    assert(s1[b] == s0[b - 1]);
                }
            }
            assert forall|x: AxisAlignedVolume| s0.contains(x) implies s1.contains(x) by {
                let i = choose|i: int| 0 <= i < s0.len() && s0[i] == x;
                if i < k {
                    assert(s1[i] == x);
                } else {
                    assert(s1[i + 1] == x);
                }
            }
            assert forall|x: AxisAlignedVolume| s1.contains(x) implies s0.contains(x) || x == volume by {
                let i = choose|i: int| 0 <= i < s1.len() && s1[i] == x;
                if i < k {
                    assert(s0[i] == x);
                } else if i > k {
                    assert(s0[i - 1] == x);
                }
            }
        }
    }

    fn insert_cover(covers: &mut Vec<CoverObject>, occupancy: &mut Vec<CoverOccupancy>, cover: CoverObject)
        requires
            covers_sorted(old(covers)@),
            occupancy_matches(old(covers)@, old(occupancy)@),
            forall|i: int| 0 <= i < old(covers)@.len() ==> old(covers)@[i].id@ != cover.id@,
        ensures
            covers_sorted(final(covers)@),
            occupancy_matches(final(covers)@, final(occupancy)@),
            final(covers)@.len() == old(covers)@.len() + 1,
            final(covers)@.contains(cover),
            forall|x: CoverObject| old(covers)@.contains(x) ==> final(covers)@.contains(x),
            forall|x: CoverObject| final(covers)@.contains(x) ==> old(covers)@.contains(x) || x == cover,
            forall|k: int| 0 <= k < final(occupancy)@.len() ==> (#[trigger] final(occupancy)@[k]).occupants@.len() == 0
                || exists|j: int| 0 <= j < old(occupancy)@.len() && old(occupancy)@[j] == final(occupancy)@[k],
    {
        let ghost s0 = covers@;
        let ghost o0 = occupancy@;
        let mut k: usize = 0;
        while k < covers.len() && text_before(&covers[k].id, &cover.id)
            invariant
                k <= covers@.len(),
                covers@ == s0,
                forall|i: int| 0 <= i < k ==> id_before(s0[i].id@, cover.id@),
            decreases covers@.len() - k,
        {
            k += 1;
        }
        proof {
            if k < s0.len() {
                lemma_id_order(s0[k as int].id@, cover.id@, cover.id@);
            }
            assert forall|j: int| k <= j < s0.len() implies id_before(cover.id@, s0[j].id@) by {
                lemma_id_order(cover.id@, s0[k as int].id@, s0[j].id@);
                lemma_id_order(s0[k as int].id@, cover.id@, s0[j].id@);
            }
        }
        let record = CoverOccupancy {
            cover_id: cover.id.clone(),
            slot_capacity: cover.slot_capacity,
            occupants: Vec::new(),
        };
        occupancy.insert(k, record);
        covers.insert(k, cover);
        proof {
            let s1 = covers@;
            let o1 = occupancy@;
            assert(s1[k as int] == cover);
            assert forall|a: int, b: int| 0 <= a < b < s1.len() implies id_before(s1[a].id@, s1[b].id@) by {
                if b < k {
                } else if b == k {
                } else if a < k {
                    assert(s1[b] == s0[b - 1]);
                } else if a == k {
                    assert(s1[b] == s0[b - 1]);
                } else {
                    assert(s1[a] == s0[a - 1]);
                    assert(s1[b] == s0[b - 1]);
                }
            }
            assert forall|x: CoverObject| s0.contains(x) implies s1.contains(x) by {
                let i = choose|i: int| 0 <= i < s0.len() && s0[i] == x;
                if i < k {
                    assert(s1[i] == x);
                } else {
                    assert(s1[i + 1] == x);
                }
            }
            assert forall|x: CoverObject| s1.contains(x) implies s0.contains(x) || x == cover by {
                let i = choose|i: int| 0 <= i < s1.len() && s1[i] == x;
                if i < k {
                    assert(s0[i] == x);
                } else if i > k {
                    assert(s0[i - 1] == x);
                }
            }
            assert forall|j: int| 0 <= j < o1.len() implies {
                &&& (#[trigger] o1[j]).cover_id == s1[j].id
                &&& o1[j].slot_capacity == s1[j].slot_capacity
                &&& ids_increasing(o1[j].occupants@)
                &&& o1[j].occupants@.len() <= o1[j].slot_capacity
            } by {
                if j < k {
                    assert(o1[j] == o0[j]);
                    assert(s1[j] == s0[j]);
                } else if j > k {
                    assert(o1[j] == o0[j - 1]);
                    assert(s1[j] == s0[j - 1]);
                }
            }
            assert forall|j: int| 0 <= j < o1.len() implies (#[trigger] o1[j]).occupants@.len() == 0 || exists|i: int|
                0 <= i < o0.len() && o0[i] == o1[j] by {
                if j < k {
                    assert(o1[j] == o0[j]);
                } else if j > k {
                    assert(o1[j] == o0[j - 1]);
                }
            }
        }
    }

    /// Builds the cover view of a map import once it validates: obstacles and cover objects by
    /// id, every cover object with its free slots.
    pub fn from_map_data(map: &MapDataImport) -> (r: Result<Self, CoverError>)
        ensures
            map_validation(*map) is Err ==> r == Err::<Self, CoverError>(
                CoverError::InvalidMapData(map_validation(*map)->Err_0),
            ),
            map_validation(*map) is Ok ==> r is Ok && {
                let m = r->Ok_0;
                &&& m.wf()
                &&& m.spec_map_id() == map.map_id@
                &&& m.spec_map_version() == map.map_version
                &&& m.spec_checksum() == map.checksum@
                &&& m.spec_obstacles().len() == map.obstacles@.len()
                &&& forall|j: int|
                    0 <= j < map.obstacles@.len() ==> m.spec_obstacles().contains(
                        volume_of_shape(#[trigger] map.obstacles@[j]),
                    )
                &&& m.spec_covers().len() == map.cover_objects@.len()
                &&& forall|j: int|
                    0 <= j < map.cover_objects@.len() ==> m.spec_covers().contains(
                        cover_of_shape(#[trigger] map.cover_objects@[j]),
                    )
                &&& forall|k: int| 0 <= k < m.spec_occupancy().len() ==> (#[trigger] m.spec_occupancy()[k]).occupants@.len() == 0
            },
    {
        match validate_map_data_import(map) {
            Err(e) => {
                return Err(CoverError::InvalidMapData(e));
            },
            Ok(_) => {},
        }
        proof {
            lemma_validated_shape_ids_unique(*map);
        }
        let mut obstacles: Vec<AxisAlignedVolume> = Vec::new();
        let mut i: usize = 0;
        while i < map.obstacles.len()
            invariant
                i <= map.obstacles@.len(),
                forall|a: int, b: int| 0 <= a < b < map.obstacles@.len() ==> map.obstacles@[a].id@ != map.obstacles@[b].id@,
                volumes_sorted(obstacles@),
                obstacles@.len() == i,
                forall|j: int| 0 <= j < i ==> obstacles@.contains(volume_of_shape(#[trigger] map.obstacles@[j])),
                forall|x: AxisAlignedVolume| obstacles@.contains(x) ==> exists|j: int| 0 <= j < i && x == volume_of_shape(
                    #[trigger] map.obstacles@[j],
                ),
            decreases map.obstacles@.len() - i,
        {
            let volume = AxisAlignedVolume::from_shape(&map.obstacles[i]);
            proof {
                assert forall|a: int| 0 <= a < obstacles@.len() implies obstacles@[a].id@ != volume.id@ by {
                    assert(obstacles@.contains(obstacles@[a]));
                    let j = choose|j: int| 0 <= j < i && obstacles@[a] == volume_of_shape(map.obstacles@[j]);
                }
            }
            let ghost before = obstacles@;
            Self::insert_obstacle(&mut obstacles, volume);
            proof {
                assert forall|x: AxisAlignedVolume| obstacles@.contains(x) implies exists|j: int| 0 <= j < i + 1 && x
                    == volume_of_shape(#[trigger] map.obstacles@[j]) by {
                    if x == volume {
                        assert(x == volume_of_shape(map.obstacles@[i as int]));
                    } else {
                        let j = choose|j: int| 0 <= j < i && x == volume_of_shape(#[trigger] map.obstacles@[j]);
                        assert(0 <= j < i + 1);
                    }
                }
            }
            i += 1;
        }
        let mut cover_objects: Vec<CoverObject> = Vec::new();
        let mut occupancy: Vec<CoverOccupancy> = Vec::new();
        let mut c: usize = 0;
        while c < map.cover_objects.len()
            invariant
                c <= map.cover_objects@.len(),
                forall|a: int, b: int|
                    0 <= a < b < map.cover_objects@.len() ==> map.cover_objects@[a].id@ != map.cover_objects@[b].id@,
                covers_sorted(cover_objects@),
                occupancy_matches(cover_objects@, occupancy@),
                cover_objects@.len() == c,
                forall|j: int| 0 <= j < c ==> cover_objects@.contains(cover_of_shape(#[trigger] map.cover_objects@[j])),
                forall|x: CoverObject| cover_objects@.contains(x) ==> exists|j: int| 0 <= j < c && x == cover_of_shape(
                    #[trigger] map.cover_objects@[j],
                ),
                forall|k: int| 0 <= k < occupancy@.len() ==> (#[trigger] occupancy@[k]).occupants@.len() == 0,
            decreases map.cover_objects@.len() - c,
        {
            let cover = CoverObject::from_shape(&map.cover_objects[c]);
            proof {
                assert forall|a: int| 0 <= a < cover_objects@.len() implies cover_objects@[a].id@ != cover.id@ by {
                    assert(cover_objects@.contains(cover_objects@[a]));
                    let j = choose|j: int| 0 <= j < c && cover_objects@[a] == cover_of_shape(map.cover_objects@[j]);
                }
            }
            let ghost before = occupancy@;
            Self::insert_cover(&mut cover_objects, &mut occupancy, cover);
            proof {
                assert forall|x: CoverObject| cover_objects@.contains(x) implies exists|j: int| 0 <= j < c + 1 && x
                    == cover_of_shape(#[trigger] map.cover_objects@[j]) by {
                    if x == cover {
                        assert(x == cover_of_shape(map.cover_objects@[c as int]));
                    } else {
                        let j = choose|j: int| 0 <= j < c && x == cover_of_shape(#[trigger] map.cover_objects@[j]);
                        assert(0 <= j < c + 1);
                    }
                }
                assert forall|k: int| 0 <= k < occupancy@.len() implies (#[trigger] occupancy@[k]).occupants@.len() == 0 by {
                    if occupancy@[k].occupants@.len() != 0 {
                        let j = choose|j: int| 0 <= j < before.len() && before[j] == occupancy@[k];
                        assert(before[j].occupants@.len() == 0);
                    }
                }
            }
            c += 1;
        }
        Ok(
            Self {
                map_id: map.map_id.clone(),
                map_version: map.map_version,
                checksum: map.checksum.clone(),
                obstacles,
                cover_objects,
                occupancy,
            },
        )
    }
}

impl CoverCombatMap {
    pub fn map_id(&self) -> (r: &str)
        ensures
            r@ == self.spec_map_id(),
    {
        self.map_id.as_str()
    }

    pub fn map_version(&self) -> (r: u32)
        ensures
            r == self.spec_map_version(),
    {
        self.map_version
    }

    pub fn checksum(&self) -> (r: &str)
        ensures
            r@ == self.spec_checksum(),
    {
        self.checksum.as_str()
    }

    pub fn obstacle_count(&self) -> (r: usize)
        ensures
            r == self.spec_obstacles().len(),
    {
        self.obstacles.len()
    }

    pub fn cover_count(&self) -> (r: usize)
        ensures
            r == self.spec_covers().len(),
    {
        self.cover_objects.len()
    }

    /// The first obstacle, by id, that holds the point.
    pub fn obstacle_at_point(&self, point: MapPoint) -> (r: Option<&AxisAlignedVolume>)
        ensures
            ({
                let k = first_index(self.spec_obstacles(), contains_pred(point));
                r == if k < self.spec_obstacles().len() {
                    Some(&self.spec_obstacles()[k])
                } else {
                    None::<&AxisAlignedVolume>
                }
            }),
            match r {
                Some(v) => v.min.x_mm <= point.x_mm <= v.max.x_mm && v.min.y_mm <= point.y_mm <= v.max.y_mm,
                None => forall|i: int|
                    0 <= i < self.spec_obstacles().len() ==> !(#[trigger] self.spec_obstacles()[i].min.x_mm
                        <= point.x_mm <= self.spec_obstacles()[i].max.x_mm && self.spec_obstacles()[i].min.y_mm
                        <= point.y_mm <= self.spec_obstacles()[i].max.y_mm),
            },
    {
        let mut i: usize = 0;
        while i < self.obstacles.len()
            invariant
                i <= self.obstacles@.len(),
                forall|j: int| 0 <= j < i ==> !contains_pred(point)(#[trigger] self.obstacles@[j]),
            decreases self.obstacles@.len() - i,
        {
            if self.obstacles[i].contains_point(point) {
                proof {
                    lemma_first_index(self.obstacles@, contains_pred(point), i as int);
                }
                return Some(&self.obstacles[i]);
            }
            i += 1;
        }
        proof {
            lemma_first_index(self.obstacles@, contains_pred(point), i as int);
        }
        None
    }

    /// The first cover object, by id, that holds the point.
    pub fn cover_at_point(&self, point: MapPoint) -> (r: Option<&CoverObject>)
        ensures
            ({
                let k = first_index(self.spec_covers(), cover_contains_pred(point));
                r == if k < self.spec_covers().len() {
                    Some(&self.spec_covers()[k])
                } else {
                    None::<&CoverObject>
                }
            }),
            match r {
                Some(c) => c.volume.min.x_mm <= point.x_mm <= c.volume.max.x_mm && c.volume.min.y_mm <= point.y_mm
                    <= c.volume.max.y_mm,
                None => forall|i: int|
                    0 <= i < self.spec_covers().len() ==> !(#[trigger] self.spec_covers()[i].volume.min.x_mm
                        <= point.x_mm <= self.spec_covers()[i].volume.max.x_mm
                        && self.spec_covers()[i].volume.min.y_mm <= point.y_mm
                        <= self.spec_covers()[i].volume.max.y_mm),
            },
    {
        let mut i: usize = 0;
        while i < self.cover_objects.len()
            invariant
                i <= self.cover_objects@.len(),
                forall|j: int| 0 <= j < i ==> !cover_contains_pred(point)(#[trigger] self.cover_objects@[j]),
            decreases self.cover_objects@.len() - i,
        {
            if self.cover_objects[i].volume.contains_point(point) {
                proof {
                    lemma_first_index(self.cover_objects@, cover_contains_pred(point), i as int);
                }
                return Some(&self.cover_objects[i]);
            }
            i += 1;
        }
        proof {
            lemma_first_index(self.cover_objects@, cover_contains_pred(point), i as int);
        }
        None
    }

    /// The line between two positions, blocked by the first obstacle, by id, that it touches;
    /// cover objects do not block.
    fn line_query(&self, from: WorldPosition, to: WorldPosition) -> (r: LineQuery)
        requires
            line_fits(self.spec_obstacles(), point_of(from), point_of(to)),
        ensures
            r.from == from,
            r.to == to,
            ({
                let k = first_index(self.spec_obstacles(), meets_pred(point_of(from), point_of(to)));
                &&& r.clear == (k >= self.spec_obstacles().len())
                &&& r.blocking_obstacle_id == if k < self.spec_obstacles().len() {
                    Some(self.spec_obstacles()[k].id)
                } else {
                    None::<String>
                }
            }),
            !r.clear ==> exists|i: int|
                0 <= i < self.spec_obstacles().len() && r.blocking_obstacle_id == Some(
                    #[trigger] self.spec_obstacles()[i].id,
                ) && !(self.spec_obstacles()[i].min.x_mm <= self.spec_obstacles()[i].max.x_mm
                    && self.spec_obstacles()[i].min.y_mm <= self.spec_obstacles()[i].max.y_mm
                    && segment_beside_volume(self.spec_obstacles()[i], point_of(from), point_of(to))),
            forall|i: int|
                0 <= i < self.spec_obstacles().len() && self.spec_obstacles()[i].min.x_mm
                    <= self.spec_obstacles()[i].max.x_mm && self.spec_obstacles()[i].min.y_mm
                    <= self.spec_obstacles()[i].max.y_mm && #[trigger] segment_crosses_volume(
                    self.spec_obstacles()[i],
                    point_of(from),
                    point_of(to),
                ) ==> !r.clear,
    {
        let from_point = MapPoint { x_mm: from.x_mm, y_mm: from.y_mm };
        let to_point = MapPoint { x_mm: to.x_mm, y_mm: to.y_mm };
        let mut i: usize = 0;
        while i < self.obstacles.len()
            invariant
                from_point == point_of(from),
                to_point == point_of(to),
                line_fits(self.obstacles@, from_point, to_point),
                i <= self.obstacles@.len(),
                forall|j: int| 0 <= j < i ==> !volume_meets_segment(#[trigger] self.obstacles@[j], from_point, to_point),
            decreases self.obstacles@.len() - i,
        {
            assert(volume_test_fits(self.obstacles@[i as int], from_point, to_point));
            if self.obstacles[i].intersects_segment(from_point, to_point) {
                proof {
                    lemma_first_index(self.obstacles@, meets_pred(from_point, to_point), i as int);
                    let v = self.obstacles@[i as int];
                    if v.min.x_mm <= v.max.x_mm && v.min.y_mm <= v.max.y_mm && segment_beside_volume(
                        v,
                        from_point,
                        to_point,
                    ) {
                        lemma_segment_beside_volume_misses(v, from_point, to_point);
                    }
                }
                let id = self.obstacles[i].id.clone();
                return LineQuery { from, to, clear: false, blocking_obstacle_id: Some(id) };
            }
            i += 1;
        }
        proof {
            lemma_first_index(self.obstacles@, meets_pred(from_point, to_point), i as int);
            assert forall|j: int|
                0 <= j < self.obstacles@.len() && self.obstacles@[j].min.x_mm <= self.obstacles@[j].max.x_mm
                    && self.obstacles@[j].min.y_mm <= self.obstacles@[j].max.y_mm && #[trigger] segment_crosses_volume(
                    self.obstacles@[j],
                    from_point,
                    to_point,
                ) implies false by {
                lemma_segment_across_volume_meets(self.obstacles@[j], from_point, to_point);
            }
        }
        LineQuery { from, to, clear: true, blocking_obstacle_id: None }
    }

    pub fn line_of_sight(&self, from: WorldPosition, to: WorldPosition) -> (r: LineQuery)
        requires
            line_fits(self.spec_obstacles(), point_of(from), point_of(to)),
        ensures
            r.from == from,
            r.to == to,
            ({
                let k = first_index(self.spec_obstacles(), meets_pred(point_of(from), point_of(to)));
                &&& r.clear == (k >= self.spec_obstacles().len())
                &&& r.blocking_obstacle_id == if k < self.spec_obstacles().len() {
                    Some(self.spec_obstacles()[k].id)
                } else {
                    None::<String>
                }
            }),
            !r.clear ==> exists|i: int|
                0 <= i < self.spec_obstacles().len() && r.blocking_obstacle_id == Some(
                    #[trigger] self.spec_obstacles()[i].id,
                ) && !(self.spec_obstacles()[i].min.x_mm <= self.spec_obstacles()[i].max.x_mm
                    && self.spec_obstacles()[i].min.y_mm <= self.spec_obstacles()[i].max.y_mm
                    && segment_beside_volume(self.spec_obstacles()[i], point_of(from), point_of(to))),
            forall|i: int|
                0 <= i < self.spec_obstacles().len() && self.spec_obstacles()[i].min.x_mm
                    <= self.spec_obstacles()[i].max.x_mm && self.spec_obstacles()[i].min.y_mm
                    <= self.spec_obstacles()[i].max.y_mm && #[trigger] segment_crosses_volume(
                    self.spec_obstacles()[i],
                    point_of(from),
                    point_of(to),
                ) ==> !r.clear,
    {
        self.line_query(from, to)
    }

    pub fn line_of_fire(&self, from: WorldPosition, to: WorldPosition) -> (r: LineQuery)
        requires
            line_fits(self.spec_obstacles(), point_of(from), point_of(to)),
        ensures
            r.from == from,
            r.to == to,
            ({
                let k = first_index(self.spec_obstacles(), meets_pred(point_of(from), point_of(to)));
                &&& r.clear == (k >= self.spec_obstacles().len())
                &&& r.blocking_obstacle_id == if k < self.spec_obstacles().len() {
                    Some(self.spec_obstacles()[k].id)
                } else {
                    None::<String>
                }
            }),
            !r.clear ==> exists|i: int|
                0 <= i < self.spec_obstacles().len() && r.blocking_obstacle_id == Some(
                    #[trigger] self.spec_obstacles()[i].id,
                ) && !(self.spec_obstacles()[i].min.x_mm <= self.spec_obstacles()[i].max.x_mm
                    && self.spec_obstacles()[i].min.y_mm <= self.spec_obstacles()[i].max.y_mm
                    && segment_beside_volume(self.spec_obstacles()[i], point_of(from), point_of(to))),
            forall|i: int|
                0 <= i < self.spec_obstacles().len() && self.spec_obstacles()[i].min.x_mm
                    <= self.spec_obstacles()[i].max.x_mm && self.spec_obstacles()[i].min.y_mm
                    <= self.spec_obstacles()[i].max.y_mm && #[trigger] segment_crosses_volume(
                    self.spec_obstacles()[i],
                    point_of(from),
                    point_of(to),
                ) ==> !r.clear,
    {
        self.line_query(from, to)
    }

    fn find_occupancy(&self, cover_id: &str) -> (r: usize)
        ensures
            r == first_index(self.spec_occupancy(), occupancy_pred(cover_id@)),
            r <= self.spec_occupancy().len(),
    {
        let mut i: usize = 0;
        while i < self.occupancy.len()
            invariant
                i <= self.occupancy@.len(),
                forall|j: int| 0 <= j < i ==> !occupancy_pred(cover_id@)(#[trigger] self.occupancy@[j]),
            decreases self.occupancy@.len() - i,
        {
            if same_text(self.occupancy[i].cover_id.as_str(), cover_id) {
                proof {
                    lemma_first_index(self.occupancy@, occupancy_pred(cover_id@), i as int);
                }
                return i;
            }
            i += 1;
        }
        proof {
            lemma_first_index(self.occupancy@, occupancy_pred(cover_id@), i as int);
        }
        i
    }

    /// Claims a slot of a cover object for an entity: idempotent for an entity that holds one,
    /// refused when the cover object is full or unknown.
    pub fn claim_cover_slot(&mut self, cover_id: &str, entity_id: EntityId) -> (r: Result<(), CoverError>)
        requires
            old(self).wf(),
        ensures
            final(self).wf(),
            r == claim_outcome(old(self).spec_occupancy(), cover_id@, entity_id),
            final(self).spec_map_id() == old(self).spec_map_id(),
            final(self).spec_map_version() == old(self).spec_map_version(),
            final(self).spec_checksum() == old(self).spec_checksum(),
            final(self).spec_obstacles() == old(self).spec_obstacles(),
            final(self).spec_covers() == old(self).spec_covers(),
            final(self).spec_occupancy().len() == old(self).spec_occupancy().len(),
            ({
                let k = first_index(old(self).spec_occupancy(), occupancy_pred(cover_id@));
                &&& forall|j: int|
                    0 <= j < old(self).spec_occupancy().len() && j != k ==> final(self).spec_occupancy()[j]
                        == old(self).spec_occupancy()[j]
                &&& (r is Err || old(self).spec_occupancy()[k].occupants@.contains(entity_id))
                    ==> final(self).spec_occupancy() == old(self).spec_occupancy()
                &&& r is Ok ==> {
                    let before = old(self).spec_occupancy()[k];
                    let after = final(self).spec_occupancy()[k];
                    &&& after.cover_id == before.cover_id
                    &&& after.slot_capacity == before.slot_capacity
                    &&& after.occupants@ == if before.occupants@.contains(entity_id) {
                        before.occupants@
                    } else {
                        before.occupants@.insert(entity_slot(before.occupants@, entity_id), entity_id)
                    }
                }
            }),
    {
        let k = self.find_occupancy(cover_id);
        if k >= self.occupancy.len() {
            return Err(CoverError::UnknownCoverId);
        }
        let ghost o0 = self.occupancy@;
        let ghost before = self.occupancy@[k as int];
        let n = self.occupancy[k].occupants.len();
        let mut p: usize = 0;
        while p < n && self.occupancy[k].occupants[p].0 < entity_id.0
            invariant
                k < self.occupancy@.len(),
                self.occupancy@ == o0,
                before == o0[k as int],
                n == before.occupants@.len(),
                p <= n,
                forall|j: int| 0 <= j < p ==> before.occupants@[j].0 < entity_id.0,
            decreases n - p,
        {
            p += 1;
        }
        proof {
            assert(ids_increasing(before.occupants@));
            assert forall|j: int| p <= j < n implies before.occupants@[j].0 >= entity_id.0 by {
                if j > p {
                    assert(before.occupants@[p as int].0 < before.occupants@[j].0);
                }
            }
            lemma_entity_slot(before.occupants@, entity_id, p as int);
        }
        if p < n && self.occupancy[k].occupants[p].0 == entity_id.0 {
            assert(before.occupants@[p as int] == entity_id);
            return Ok(());
        }
        proof {
            if before.occupants@.contains(entity_id) {
                let j = choose|j: int| 0 <= j < n && before.occupants@[j] == entity_id;
                if j < p {
                } else if j > p {
                    assert(before.occupants@[p as int].0 < before.occupants@[j].0);
                }
            }
        }
        if n >= self.occupancy[k].slot_capacity {
            return Err(CoverError::CoverFull);
        }
        let mut occupants = self.occupancy[k].occupants.clone();
        occupants.insert(p, entity_id);
        let record = CoverOccupancy {
            cover_id: self.occupancy[k].cover_id.clone(),
            slot_capacity: self.occupancy[k].slot_capacity,
            occupants,
        };
        self.occupancy.set(k, record);
        proof {
            let s1 = record.occupants@;
            let s0 = before.occupants@;
            assert(s1 == s0.insert(p as int, entity_id));
            assert forall|a: int, b: int| 0 <= a < b < s1.len() implies s1[a].0 < s1[b].0 by {
                if b < p {
                } else if b == p {
                } else if a < p {
                    assert(s1[b] == s0[b - 1]);
                } else if a == p {
                    assert(s1[b] == s0[b - 1]);
                } else {
                    assert(s1[a] == s0[a - 1]);
                    assert(s1[b] == s0[b - 1]);
                }
            }
            let o1 = self.occupancy@;
            assert forall|j: int| 0 <= j < o1.len() implies {
                &&& (#[trigger] o1[j]).cover_id == self.cover_objects@[j].id
                &&& o1[j].slot_capacity == self.cover_objects@[j].slot_capacity
                &&& ids_increasing(o1[j].occupants@)
                &&& o1[j].occupants@.len() <= o1[j].slot_capacity
            } by {
                if j != k {
                    assert(o1[j] == o0[j]);
                }
            }
        }
        Ok(())
    }
}

impl CoverCombatMap {
    /// Releases an entity's slot of a cover object; says whether it held one.
    pub fn release_cover_slot(&mut self, cover_id: &str, entity_id: EntityId) -> (r: Result<bool, CoverError>)
        requires
            old(self).wf(),
        ensures
            final(self).wf(),
            final(self).spec_map_id() == old(self).spec_map_id(),
            final(self).spec_map_version() == old(self).spec_map_version(),
            final(self).spec_checksum() == old(self).spec_checksum(),
            final(self).spec_obstacles() == old(self).spec_obstacles(),
            final(self).spec_covers() == old(self).spec_covers(),
            final(self).spec_occupancy().len() == old(self).spec_occupancy().len(),
            ({
                let k = first_index(old(self).spec_occupancy(), occupancy_pred(cover_id@));
                &&& k >= old(self).spec_occupancy().len() ==> r == Err::<bool, CoverError>(CoverError::UnknownCoverId)
                    && final(self).spec_occupancy() == old(self).spec_occupancy()
                &&& k < old(self).spec_occupancy().len() ==> {
                    let before = old(self).spec_occupancy()[k];
                    let after = final(self).spec_occupancy()[k];
                    &&& r == Ok::<bool, CoverError>(before.occupants@.contains(entity_id))
                    &&& after.cover_id == before.cover_id
                    &&& after.slot_capacity == before.slot_capacity
                    &&& after.occupants@ == if before.occupants@.contains(entity_id) {
                        before.occupants@.remove(entity_slot(before.occupants@, entity_id))
                    } else {
                        before.occupants@
                    }
                    &&& forall|j: int|
                        0 <= j < old(self).spec_occupancy().len() && j != k ==> final(self).spec_occupancy()[j]
                            == old(self).spec_occupancy()[j]
                }
            }),
    {
        let k = self.find_occupancy(cover_id);
        if k >= self.occupancy.len() {
            return Err(CoverError::UnknownCoverId);
        }
        let ghost o0 = self.occupancy@;
        let ghost before = self.occupancy@[k as int];
        let n = self.occupancy[k].occupants.len();
        let mut p: usize = 0;
        while p < n && self.occupancy[k].occupants[p].0 < entity_id.0
            invariant
                k < self.occupancy@.len(),
                self.occupancy@ == o0,
                before == o0[k as int],
                n == before.occupants@.len(),
                p <= n,
                forall|j: int| 0 <= j < p ==> before.occupants@[j].0 < entity_id.0,
            decreases n - p,
        {
            p += 1;
        }
        proof {
            assert(ids_increasing(before.occupants@));
            assert forall|j: int| p <= j < n implies before.occupants@[j].0 >= entity_id.0 by {
                if j > p {
                    assert(before.occupants@[p as int].0 < before.occupants@[j].0);
                }
            }
            lemma_entity_slot(before.occupants@, entity_id, p as int);
            if before.occupants@.contains(entity_id) {
                let j = choose|j: int| 0 <= j < n && before.occupants@[j] == entity_id;
                if j > p {
                    assert(before.occupants@[p as int].0 < before.occupants@[j].0);
                }
            }
        }
        if !(p < n && self.occupancy[k].occupants[p].0 == entity_id.0) {
            return Ok(false);
        }
        assert(before.occupants@[p as int] == entity_id);
        let mut occupants = self.occupancy[k].occupants.clone();
        occupants.remove(p);
        let record = CoverOccupancy {
            cover_id: self.occupancy[k].cover_id.clone(),
            slot_capacity: self.occupancy[k].slot_capacity,
            occupants,
        };
        self.occupancy.set(k, record);
        proof {
            let s1 = record.occupants@;
            let s0 = before.occupants@;
            assert(s1 == s0.remove(p as int));
            assert forall|a: int, b: int| 0 <= a < b < s1.len() implies s1[a].0 < s1[b].0 by {
                if a < p {
                    if b >= p {
                        assert(s1[b] == s0[b + 1]);
                    }
                } else {
                    assert(s1[a] == s0[a + 1]);
                    assert(s1[b] == s0[b + 1]);
                }
            }
            let o1 = self.occupancy@;
            assert forall|j: int| 0 <= j < o1.len() implies {
                &&& (#[trigger] o1[j]).cover_id == self.cover_objects@[j].id
                &&& o1[j].slot_capacity == self.cover_objects@[j].slot_capacity
                &&& ids_increasing(o1[j].occupants@)
                &&& o1[j].occupants@.len() <= o1[j].slot_capacity
            } by {
                if j != k {
                    assert(o1[j] == o0[j]);
                }
            }
        }
        Ok(true)
    }

    pub fn occupancy(&self, cover_id: &str) -> (r: Option<&CoverOccupancy>)
        ensures
            ({
                let k = first_index(self.spec_occupancy(), occupancy_pred(cover_id@));
                r == if k < self.spec_occupancy().len() {
                    Some(&self.spec_occupancy()[k])
                } else {
                    None::<&CoverOccupancy>
                }
            }),
    {
        let k = self.find_occupancy(cover_id);
        if k < self.occupancy.len() {
            Some(&self.occupancy[k])
        } else {
            None
        }
    }

    fn target_cover_id(&self, target_position: WorldPosition) -> (r: Option<String>)
        ensures
            ({
                let k = first_index(self.spec_covers(), cover_contains_pred(point_of(target_position)));
                r == if k < self.spec_covers().len() {
                    Some(self.spec_covers()[k].id)
                } else {
                    None::<String>
                }
            }),
    {
        match self.cover_at_point(MapPoint { x_mm: target_position.x_mm, y_mm: target_position.y_mm }) {
            Some(cover) => Some(cover.id.clone()),
            None => None,
        }
    }

    /// Checks range first: out of range the query stops there; in range the line of fire
    /// decides, then whether the target stands in cover.
    pub fn evaluate_range_first_targeting(
        &self,
        attacker_id: EntityId,
        attacker_position: WorldPosition,
        target_id: EntityId,
        target_position: WorldPosition,
        max_range_mm: u32,
    ) -> (r: TargetingQuery)
        requires
            targeting_fits(self.spec_obstacles(), attacker_position, target_position, max_range_mm),
        ensures
            r.attacker_id == attacker_id,
            r.target_id == target_id,
            r.distance_sq_mm == distance_sq_spec(attacker_position, target_position),
            r.max_range_mm == max_range_mm,
            r.result == targeting_result(
                self.spec_obstacles(),
                self.spec_covers(),
                attacker_position,
                target_position,
                max_range_mm,
            ),
            ({
                let kc = first_index(self.spec_covers(), cover_contains_pred(point_of(target_position)));
                r.target_cover_id == if kc < self.spec_covers().len() {
                    Some(self.spec_covers()[kc].id)
                } else {
                    None::<String>
                }
            }),
            r.line_of_fire.from == attacker_position,
            r.line_of_fire.to == target_position,
            ({
                let k = first_index(
                    self.spec_obstacles(),
                    meets_pred(point_of(attacker_position), point_of(target_position)),
                );
                if r.result == TargetingResult::OutOfRange {
                    r.line_of_fire.clear && r.line_of_fire.blocking_obstacle_id is None
                } else {
                    &&& r.line_of_fire.clear == (k >= self.spec_obstacles().len())
                    &&& r.line_of_fire.blocking_obstacle_id == if k < self.spec_obstacles().len() {
                        Some(self.spec_obstacles()[k].id)
                    } else {
                        None::<String>
                    }
                }
            }),
    {
        let distance_sq_mm = distance_sq(attacker_position, target_position);
        let max_range_sq_mm = max_range_mm as i64 * max_range_mm as i64;
        if distance_sq_mm > max_range_sq_mm {
            return TargetingQuery {
                attacker_id,
                target_id,
                distance_sq_mm,
                max_range_mm,
                line_of_fire: LineQuery {
                    from: attacker_position,
                    to: target_position,
                    clear: true,
                    blocking_obstacle_id: None,
                },
                target_cover_id: self.target_cover_id(target_position),
                result: TargetingResult::OutOfRange,
            };
        }
        let line_of_fire = self.line_of_fire(attacker_position, target_position);
        let target_cover_id = self.target_cover_id(target_position);
        let result = if !line_of_fire.clear {
            TargetingResult::BlockedByObstacle
        } else if target_cover_id.is_some() {
            TargetingResult::InRangeTargetInCover
        } else {
            TargetingResult::InRangeClear
        };
        TargetingQuery {
            attacker_id,
            target_id,
            distance_sq_mm,
            max_range_mm,
            line_of_fire,
            target_cover_id,
            result,
        }
    }

    /// Runs a targeting query for every attacker against every target and counts the results.
    pub fn run_dense_targeting_smoke(
        &self,
        attackers: &[WorldPosition],
        targets: &[WorldPosition],
        max_range_mm: u32,
    ) -> (r: CoverCombatPerfRun)
        requires
            attackers@.len() * targets@.len() <= usize::MAX,
            targets@.len() + 10_000 <= usize::MAX,
            forall|a: int, t: int|
                0 <= a < attackers@.len() && 0 <= t < targets@.len() ==> targeting_fits(
                    self.spec_obstacles(),
                    #[trigger] attackers@[a],
                    #[trigger] targets@[t],
                    max_range_mm,
                ),
        ensures
            r.query_count == attackers@.len() * targets@.len(),
            r.in_range_clear == pair_count(
                self.spec_obstacles(),
                self.spec_covers(),
                attackers@,
                targets@,
                max_range_mm,
                TargetingResult::InRangeClear,
            ),
            r.in_range_target_in_cover == pair_count(
                self.spec_obstacles(),
                self.spec_covers(),
                attackers@,
                targets@,
                max_range_mm,
                TargetingResult::InRangeTargetInCover,
            ),
            r.blocked_by_obstacle == pair_count(
                self.spec_obstacles(),
                self.spec_covers(),
                attackers@,
                targets@,
                max_range_mm,
                TargetingResult::BlockedByObstacle,
            ),
            r.out_of_range == pair_count(
                self.spec_obstacles(),
                self.spec_covers(),
                attackers@,
                targets@,
                max_range_mm,
                TargetingResult::OutOfRange,
            ),
            r.claim_scope@ == COVER_PERF_CLAIM_SCOPE@,
    {
        let ghost obs = self.spec_obstacles();
        let ghost cov = self.spec_covers();
        let mut run = CoverCombatPerfRun {
            query_count: 0,
            in_range_clear: 0,
            in_range_target_in_cover: 0,
            blocked_by_obstacle: 0,
            out_of_range: 0,
            claim_scope: COVER_PERF_CLAIM_SCOPE,
        };
        let na = attackers.len();
        let nt = targets.len();
        let mut a: usize = 0;
        while a < na
            invariant
                na == attackers@.len(),
                nt == targets@.len(),
                obs == self.spec_obstacles(),
                cov == self.spec_covers(),
                na * nt <= usize::MAX,
                nt + 10_000 <= usize::MAX,
                forall|x: int, t: int|
                    0 <= x < attackers@.len() && 0 <= t < targets@.len() ==> targeting_fits(
                        obs,
                        #[trigger] attackers@[x],
                        #[trigger] targets@[t],
                        max_range_mm,
                    ),
                a <= na,
                run.query_count == a * nt,
                run.in_range_clear == pair_count(obs, cov, attackers@.take(a as int), targets@, max_range_mm, TargetingResult::InRangeClear),
                run.in_range_target_in_cover == pair_count(obs, cov, attackers@.take(a as int), targets@, max_range_mm, TargetingResult::InRangeTargetInCover),
                run.blocked_by_obstacle == pair_count(obs, cov, attackers@.take(a as int), targets@, max_range_mm, TargetingResult::BlockedByObstacle),
                run.out_of_range == pair_count(obs, cov, attackers@.take(a as int), targets@, max_range_mm, TargetingResult::OutOfRange),
                run.in_range_clear + run.in_range_target_in_cover + run.blocked_by_obstacle + run.out_of_range == run.query_count,
                run.claim_scope@ == COVER_PERF_CLAIM_SCOPE@,
            decreases na - a,
        {
            let attacker_position = attackers[a];
            let ghost c0 = run.in_range_clear;
            let ghost c1 = run.in_range_target_in_cover;
            let ghost c2 = run.blocked_by_obstacle;
            let ghost c3 = run.out_of_range;
            let mut t: usize = 0;
            while t < nt
                invariant
                    na == attackers@.len(),
                    nt == targets@.len(),
                    obs == self.spec_obstacles(),
                    cov == self.spec_covers(),
                    na * nt <= usize::MAX,
                    nt + 10_000 <= usize::MAX,
                    a < na,
                    attacker_position == attackers@[a as int],
                    forall|x: int, t: int|
                        0 <= x < attackers@.len() && 0 <= t < targets@.len() ==> targeting_fits(
                            obs,
                            #[trigger] attackers@[x],
                            #[trigger] targets@[t],
                            max_range_mm,
                        ),
                    t <= nt,
                    run.query_count == a * nt + t,
                    run.in_range_clear == c0 + row_count(obs, cov, attacker_position, targets@.take(t as int), max_range_mm, TargetingResult::InRangeClear),
                    run.in_range_target_in_cover == c1 + row_count(obs, cov, attacker_position, targets@.take(t as int), max_range_mm, TargetingResult::InRangeTargetInCover),
                    run.blocked_by_obstacle == c2 + row_count(obs, cov, attacker_position, targets@.take(t as int), max_range_mm, TargetingResult::BlockedByObstacle),
                    run.out_of_range == c3 + row_count(obs, cov, attacker_position, targets@.take(t as int), max_range_mm, TargetingResult::OutOfRange),
                    run.in_range_clear + run.in_range_target_in_cover + run.blocked_by_obstacle + run.out_of_range == run.query_count,
                    run.claim_scope@ == COVER_PERF_CLAIM_SCOPE@,
                decreases nt - t,
            {
                let target_position = targets[t];
                assert(targeting_fits(obs, attackers@[a as int], targets@[t as int], max_range_mm));
                let query = self.evaluate_range_first_targeting(
                    EntityId((a + 1) as u64),
                    attacker_position,
                    EntityId((t + 10_000) as u64),
                    target_position,
                    max_range_mm,
                );
                assert(a * nt + t + 1 <= na * nt) by (nonlinear_arith)
                    requires
                        a < na,
                        t < nt,
                ;
                assert(targets@.take(t + 1).drop_last() =~= targets@.take(t as int));
                run.query_count = run.query_count + 1;
                match query.result {
                    TargetingResult::InRangeClear => run.in_range_clear = run.in_range_clear + 1,
                    TargetingResult::InRangeTargetInCover => {
                        run.in_range_target_in_cover = run.in_range_target_in_cover + 1;
                    },
                    TargetingResult::BlockedByObstacle => run.blocked_by_obstacle = run.blocked_by_obstacle + 1,
                    TargetingResult::OutOfRange => run.out_of_range = run.out_of_range + 1,
                }
                t += 1;
            }
            assert(targets@.take(nt as int) =~= targets@);
            assert(attackers@.take(a + 1).drop_last() =~= attackers@.take(a as int));
            assert(attackers@.take(a + 1).last() == attacker_position);
            assert((a + 1) * nt == a * nt + nt) by (nonlinear_arith);
            a += 1;
        }
        assert(attackers@.take(na as int) =~= attackers@);
        run
    }
}

/// A slot claim is idempotent: once an entity holds a slot of a cover object, claiming it
/// again succeeds.
pub proof fn lemma_claim_idempotent(occupancy: Seq<CoverOccupancy>, cover_id: Seq<char>, entity_id: EntityId)
    requires
        first_index(occupancy, occupancy_pred(cover_id)) < occupancy.len(),
        occupancy[first_index(occupancy, occupancy_pred(cover_id))].occupants@.contains(entity_id),
    ensures
        claim_outcome(occupancy, cover_id, entity_id) == Ok::<(), CoverError>(()),
{
}

/// A newly claimed slot leaves the claiming entity among the occupants.
pub proof fn lemma_claim_holds(occupants: Seq<EntityId>, entity_id: EntityId)
    requires
        !occupants.contains(entity_id),
    ensures
        occupants.insert(entity_slot(occupants, entity_id), entity_id).contains(entity_id),
{
    lemma_entity_slot_range(occupants, entity_id);
    assert(occupants.insert(entity_slot(occupants, entity_id), entity_id)[entity_slot(occupants, entity_id)] == entity_id);
}

proof fn lemma_entity_slot_range(s: Seq<EntityId>, e: EntityId)
    ensures
        0 <= entity_slot(s, e) <= s.len(),
    decreases s.len(),
{
    if s.len() > 0 && s.last().0 >= e.0 {
        lemma_entity_slot_range(s.drop_last(), e);
    }
}

proof fn lemma_same_positivity(p: int, q: int, r: int)
    by (nonlinear_arith)
    requires
        (q > 0 && r > 0) || (q < 0 && r < 0),
    ensures
        (p * q > 0) == (p * r > 0),
        (-(p * q) > 0) == (-(p * r) > 0),
{
}

proof fn lemma_product_positive(s: int, t: int)
    by (nonlinear_arith)
    requires
        s != 0,
    ensures
        (s * t > 0) == ((s > 0 && t > 0) || (s < 0 && t < 0)),
        (-(s * t) > 0) == ((s > 0 && t < 0) || (s < 0 && t > 0)),
{
}

proof fn lemma_zero_product(s: int, t: int)
    by (nonlinear_arith)
    requires
        s == 0,
    ensures
        s * t == 0,
{
}

/// A weighted sum `(w - u) p + u q` with `u` between `0` and `w`, and `p`, `q` of one strict
/// sign, has the strict sign of `w p`.
proof fn lemma_weighted_sum_sign(w: int, u: int, p: int, q: int)
    by (nonlinear_arith)
    requires
        (p > 0 && q > 0) || (p < 0 && q < 0),
        w != 0,
        w > 0 ==> 0 <= u <= w,
        w < 0 ==> w <= u <= 0,
    ensures
        ((w > 0) == (p > 0)) ==> (w - u) * p + u * q > 0,
        ((w > 0) != (p > 0)) ==> (w - u) * p + u * q < 0,
{
}

proof fn lemma_weighted_sum_identities(ax: int, ay: int, bx: int, by: int, cx: int, cy: int)
    by (nonlinear_arith)
    ensures
        (bx - ax) * (cy - ay) - (by - ay) * (cx - ax) == -(((bx - ax) - (cx - ax)) * (ay - cy) + (cx - ax) * (by
            - cy)),
        (bx - ax) * (cy - ay) - (by - ay) * (cx - ax) == ((by - ay) - (cy - ay)) * (ax - cx) + (cy - ay) * (bx
            - cx),
{
}

/// A segment whose two ends lie strictly on one side (north or south) of both ends of a
/// horizontal or vertical segment does not meet it.
proof fn lemma_segment_apart_in_y(a: MapPoint, b: MapPoint, c: MapPoint, d: MapPoint)
    requires
        (c.y_mm < a.y_mm && c.y_mm < b.y_mm && d.y_mm < a.y_mm && d.y_mm < b.y_mm) || (c.y_mm > a.y_mm && c.y_mm
            > b.y_mm && d.y_mm > a.y_mm && d.y_mm > b.y_mm),
        c.y_mm == d.y_mm || c.x_mm == d.x_mm,
    ensures
        !segments_meet(a, b, c, d),
{
    let o1 = orient(a, b, c);
    let o2 = orient(a, b, d);
    let o3 = orient(c, d, a);
    let o4 = orient(c, d, b);
    if c.y_mm == d.y_mm {
        lemma_zero_product(d.y_mm - c.y_mm, a.x_mm - c.x_mm);
        lemma_zero_product(d.y_mm - c.y_mm, b.x_mm - c.x_mm);
        lemma_same_positivity(d.x_mm - c.x_mm, a.y_mm - c.y_mm, b.y_mm - c.y_mm);
        assert((o3 > 0) == (o4 > 0));
    } else {
        let x = c.x_mm as int;
        lemma_zero_product(d.x_mm - c.x_mm, a.y_mm - c.y_mm);
        lemma_zero_product(d.x_mm - c.x_mm, b.y_mm - c.y_mm);
        assert(o3 == -((d.y_mm - c.y_mm) * (a.x_mm - x)));
        assert(o4 == -((d.y_mm - c.y_mm) * (b.x_mm - x)));
        lemma_product_positive(d.y_mm - c.y_mm, a.x_mm - x);
        lemma_product_positive(d.y_mm - c.y_mm, b.x_mm - x);
        if (o3 > 0) != (o4 > 0) {
            let w = b.x_mm - a.x_mm;
            let u = x - a.x_mm;
            assert(w != 0);
            lemma_weighted_sum_identities(a.x_mm as int, a.y_mm as int, b.x_mm as int, b.y_mm as int, x, c.y_mm as int);
            lemma_weighted_sum_identities(a.x_mm as int, a.y_mm as int, b.x_mm as int, b.y_mm as int, x, d.y_mm as int);
            lemma_weighted_sum_sign(w, u, a.y_mm - c.y_mm, b.y_mm - c.y_mm);
            lemma_weighted_sum_sign(w, u, a.y_mm - d.y_mm, b.y_mm - d.y_mm);
            assert((o1 > 0) == (o2 > 0));
        }
    }
}

/// A segment whose two ends lie strictly on one side (east or west) of both ends of a
/// horizontal or vertical segment does not meet it.
proof fn lemma_segment_apart_in_x(a: MapPoint, b: MapPoint, c: MapPoint, d: MapPoint)
    requires
        (c.x_mm < a.x_mm && c.x_mm < b.x_mm && d.x_mm < a.x_mm && d.x_mm < b.x_mm) || (c.x_mm > a.x_mm && c.x_mm
            > b.x_mm && d.x_mm > a.x_mm && d.x_mm > b.x_mm),
        c.y_mm == d.y_mm || c.x_mm == d.x_mm,
    ensures
        !segments_meet(a, b, c, d),
{
    let o1 = orient(a, b, c);
    let o2 = orient(a, b, d);
    let o3 = orient(c, d, a);
    let o4 = orient(c, d, b);
    if c.x_mm == d.x_mm {
        lemma_zero_product(d.x_mm - c.x_mm, a.y_mm - c.y_mm);
        lemma_zero_product(d.x_mm - c.x_mm, b.y_mm - c.y_mm);
        lemma_same_positivity(d.y_mm - c.y_mm, a.x_mm - c.x_mm, b.x_mm - c.x_mm);
        assert((o3 > 0) == (o4 > 0));
    } else {
        let h = c.y_mm as int;
        lemma_zero_product(d.y_mm - c.y_mm, a.x_mm - c.x_mm);
        lemma_zero_product(d.y_mm - c.y_mm, b.x_mm - c.x_mm);
        assert(o3 == (d.x_mm - c.x_mm) * (a.y_mm - h));
        assert(o4 == (d.x_mm - c.x_mm) * (b.y_mm - h));
        lemma_product_positive(d.x_mm - c.x_mm, a.y_mm - h);
        lemma_product_positive(d.x_mm - c.x_mm, b.y_mm - h);
        if (o3 > 0) != (o4 > 0) {
            let w = b.y_mm - a.y_mm;
            let u = h - a.y_mm;
            assert(w != 0);
            lemma_weighted_sum_identities(a.x_mm as int, a.y_mm as int, b.x_mm as int, b.y_mm as int, c.x_mm as int, h);
            lemma_weighted_sum_identities(a.x_mm as int, a.y_mm as int, b.x_mm as int, b.y_mm as int, d.x_mm as int, h);
            lemma_weighted_sum_sign(w, u, a.x_mm - c.x_mm, b.x_mm - c.x_mm);
            lemma_weighted_sum_sign(w, u, a.x_mm - d.x_mm, b.x_mm - d.x_mm);
            assert((o1 > 0) == (o2 > 0));
        }
    }
}

/// Both ends of a segment lie strictly on one side of a volume: both north of its top edge,
/// both south of its bottom edge, both east of its right edge or both west of its left edge.
pub open spec fn segment_beside_volume(volume: AxisAlignedVolume, from: MapPoint, to: MapPoint) -> bool {
    ||| from.y_mm > volume.max.y_mm && to.y_mm > volume.max.y_mm
    ||| from.y_mm < volume.min.y_mm && to.y_mm < volume.min.y_mm
    ||| from.x_mm > volume.max.x_mm && to.x_mm > volume.max.x_mm
    ||| from.x_mm < volume.min.x_mm && to.x_mm < volume.min.x_mm
}

/// A segment whose two ends lie on one side of a volume (both north, south, east or west of
/// it) does not touch the volume: neither end is inside it and no edge of it is met.
pub proof fn lemma_segment_beside_volume_misses(volume: AxisAlignedVolume, from: MapPoint, to: MapPoint)
    requires
        volume.min.x_mm <= volume.max.x_mm,
        volume.min.y_mm <= volume.max.y_mm,
        segment_beside_volume(volume, from, to),
    ensures
        !volume_meets_segment(volume, from, to),
{
    assert forall|k: int| 0 <= k < 4 implies !#[trigger] edge_meets(volume, from, to, k) by {
        let c = corner(volume, k);
        let d = corner(volume, (k + 1) % 4);
        if k == 0 {
            assert(d == corner(volume, 1));
        } else if k == 1 {
            assert(d == corner(volume, 2));
        } else if k == 2 {
            assert(d == corner(volume, 3));
        } else {
            assert(d == corner(volume, 0));
        }
        if from.y_mm > volume.max.y_mm && to.y_mm > volume.max.y_mm || from.y_mm < volume.min.y_mm && to.y_mm
            < volume.min.y_mm {
            lemma_segment_apart_in_y(from, to, c, d);
        } else {
            lemma_segment_apart_in_x(from, to, c, d);
        }
    }
}

proof fn lemma_product_signs(s: int, t: int)
    by (nonlinear_arith)
    ensures
        s > 0 && t > 0 ==> s * t > 0,
        s > 0 && t < 0 ==> s * t < 0,
        s < 0 && t > 0 ==> s * t < 0,
        s < 0 && t < 0 ==> s * t > 0,
        s == 0 || t == 0 ==> s * t == 0,
{
}

/// A horizontal segment that runs across a volume from west of it to east of it (or back),
/// at a height within it, or a vertical one that runs across it from south to north (or
/// back), at an abscissa within it.
pub open spec fn segment_crosses_volume(volume: AxisAlignedVolume, from: MapPoint, to: MapPoint) -> bool {
    ||| from.y_mm == to.y_mm && volume.min.y_mm <= from.y_mm <= volume.max.y_mm && ((from.x_mm
        <= volume.min.x_mm && to.x_mm >= volume.max.x_mm) || (to.x_mm <= volume.min.x_mm && from.x_mm
        >= volume.max.x_mm))
    ||| from.x_mm == to.x_mm && volume.min.x_mm <= from.x_mm <= volume.max.x_mm && ((from.y_mm
        <= volume.min.y_mm && to.y_mm >= volume.max.y_mm) || (to.y_mm <= volume.min.y_mm && from.y_mm
        >= volume.max.y_mm))
}

/// A segment that runs straight across a volume touches it.
pub proof fn lemma_segment_across_volume_meets(volume: AxisAlignedVolume, from: MapPoint, to: MapPoint)
    requires
        volume.min.x_mm <= volume.max.x_mm,
        volume.min.y_mm <= volume.max.y_mm,
        segment_crosses_volume(volume, from, to),
    ensures
        volume_meets_segment(volume, from, to),
{
    if volume_contains(volume, from) || volume_contains(volume, to) {
        return;
    }
    let a = from;
    let b = to;
    if from.y_mm == to.y_mm && volume.min.y_mm <= from.y_mm <= volume.max.y_mm && ((from.x_mm <= volume.min.x_mm
        && to.x_mm >= volume.max.x_mm) || (to.x_mm <= volume.min.x_mm && from.x_mm >= volume.max.x_mm)) {
        let c = corner(volume, 3);
        let d = corner(volume, 0);
        assert(d == corner(volume, (3int + 1) % 4));
        let y = from.y_mm as int;
        lemma_product_signs(b.x_mm - a.x_mm, c.y_mm - y);
        lemma_product_signs(b.x_mm - a.x_mm, d.y_mm - y);
        lemma_product_signs(b.y_mm - a.y_mm, c.x_mm - a.x_mm);
        lemma_product_signs(b.y_mm - a.y_mm, d.x_mm - a.x_mm);
        lemma_product_signs(d.x_mm - c.x_mm, a.y_mm - c.y_mm);
        lemma_product_signs(d.x_mm - c.x_mm, b.y_mm - c.y_mm);
        lemma_product_signs(d.y_mm - c.y_mm, a.x_mm - c.x_mm);
        lemma_product_signs(d.y_mm - c.y_mm, b.x_mm - c.x_mm);
        assert(segments_meet(a, b, c, d));
        assert(edge_meets(volume, from, to, 3));
    } else {
        let c = corner(volume, 0);
        let d = corner(volume, 1);
        assert(d == corner(volume, (0int + 1) % 4));
        let x = from.x_mm as int;
        lemma_product_signs(b.x_mm - a.x_mm, c.y_mm - a.y_mm);
        lemma_product_signs(b.x_mm - a.x_mm, d.y_mm - a.y_mm);
        lemma_product_signs(b.y_mm - a.y_mm, c.x_mm - x);
        lemma_product_signs(b.y_mm - a.y_mm, d.x_mm - x);
        lemma_product_signs(d.x_mm - c.x_mm, a.y_mm - c.y_mm);
        lemma_product_signs(d.x_mm - c.x_mm, b.y_mm - c.y_mm);
        lemma_product_signs(d.y_mm - c.y_mm, a.x_mm - c.x_mm);
        lemma_product_signs(d.y_mm - c.y_mm, b.x_mm - c.x_mm);
        assert(segments_meet(a, b, c, d));
        assert(edge_meets(volume, from, to, 0));
    }
}

} // verus!
