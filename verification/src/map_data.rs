use vstd::prelude::*;

use crate::arith::{clamp_i32, sat_sub_i32};

verus! {

pub const MAP_DATA_SCHEMA: &'static str = "millions_mapdata_v0";

pub const MAP_DATA_FIXTURE_CHECKSUM_ALGORITHM: &'static str = "sum16_bytes";

pub const MIN_MAP_EXTENT_MM: i32 = 1000;

pub const MAX_MAP_EXTENT_MM: i32 = 1_000_000;

pub const MAX_MAP_MARKERS_PER_KIND: usize = 4096;

#[derive(Debug, Clone, Copy, PartialEq, Eq, Structural)]
pub struct MapPoint {
    pub x_mm: i32,
    pub y_mm: i32,
}

#[derive(Debug, Clone, Copy, PartialEq, Eq, Structural)]
pub struct MapBounds {
    pub min_x: i32,
    pub min_y: i32,
    pub max_x: i32,
    pub max_y: i32,
}

/// Whether a point lies in the closed rectangle of the bounds.
pub open spec fn bounds_contain(bounds: MapBounds, point: MapPoint) -> bool {
    bounds.min_x <= point.x_mm <= bounds.max_x && bounds.min_y <= point.y_mm <= bounds.max_y
}

/// Width of the bounds, saturated into `i32`.
pub open spec fn bounds_width(bounds: MapBounds) -> int {
    clamp_i32(bounds.max_x - bounds.min_x)
}

/// Height of the bounds, saturated into `i32`.
pub open spec fn bounds_height(bounds: MapBounds) -> int {
    clamp_i32(bounds.max_y - bounds.min_y)
}

impl MapBounds {
    pub fn contains_point(self, point: MapPoint) -> (r: bool)
        ensures
            r == bounds_contain(self, point),
            r == (self.min_x <= point.x_mm && point.x_mm <= self.max_x && self.min_y <= point.y_mm && point.y_mm
                <= self.max_y),
    {
        point.x_mm >= self.min_x && point.x_mm <= self.max_x && point.y_mm >= self.min_y
            && point.y_mm <= self.max_y
    }

    pub fn width_mm(self) -> (r: i32)
        ensures
            r == bounds_width(self),
    {
        sat_sub_i32(self.max_x, self.min_x)
    }

    pub fn height_mm(self) -> (r: i32)
        ensures
            r == bounds_height(self),
    {
        sat_sub_i32(self.max_y, self.min_y)
    }
}

#[derive(Debug, Clone, PartialEq, Eq)]
pub struct SpawnPoint {
    pub id: String,
    pub point: MapPoint,
    pub faction_label: String,
}

#[derive(Debug, Clone, PartialEq, Eq)]
pub struct CapturePoint {
    pub id: String,
    pub center: MapPoint,
    pub radius_mm: u32,
}

#[derive(Debug, Clone, Copy, PartialEq, Eq, Structural)]
pub enum MapShapeKind {
    Obstacle,
    Cover,
    NavigationHint,
}

#[derive(Debug, Clone, PartialEq, Eq)]
pub struct MapShape {
    pub id: String,
    pub kind: MapShapeKind,
    pub center: MapPoint,
    pub half_extents_mm: MapPoint,
    pub class_label: String,
}

#[derive(Debug, Clone, PartialEq, Eq)]
pub struct MapDataImport {
    pub schema: &'static str,
    pub map_id: String,
    pub map_version: u32,
    pub checksum: String,
    pub bounds_mm: MapBounds,
    pub spawn_points: Vec<SpawnPoint>,
    pub capture_points: Vec<CapturePoint>,
    pub obstacles: Vec<MapShape>,
    pub cover_objects: Vec<MapShape>,
    pub navigation_hints: Vec<MapShape>,
}

#[derive(Debug, Clone, Copy, PartialEq, Eq, Structural)]
pub enum MapDataValidationError {
    UnsupportedSchema,
    MissingMapId,
    MissingChecksum,
    InvalidBounds,
    TooManyMarkers,
    DuplicateId,
    PointOutOfBounds,
    InvalidRadius,
    InvalidShape,
    WrongShapeKind,
}

impl MapDataValidationError {
    pub fn as_str(self) -> (r: &'static str)
        ensures
            r@ == (match self {
                MapDataValidationError::UnsupportedSchema => "unsupported_schema"@,
                MapDataValidationError::MissingMapId => "missing_map_id"@,
                MapDataValidationError::MissingChecksum => "missing_checksum"@,
                MapDataValidationError::InvalidBounds => "invalid_bounds"@,
                MapDataValidationError::TooManyMarkers => "too_many_markers"@,
                MapDataValidationError::DuplicateId => "duplicate_id"@,
                MapDataValidationError::PointOutOfBounds => "point_out_of_bounds"@,
                MapDataValidationError::InvalidRadius => "invalid_radius"@,
                MapDataValidationError::InvalidShape => "invalid_shape"@,
                MapDataValidationError::WrongShapeKind => "wrong_shape_kind"@,
            }),
    {
        match self {
            Self::UnsupportedSchema => "unsupported_schema",
            Self::MissingMapId => "missing_map_id",
            Self::MissingChecksum => "missing_checksum",
            Self::InvalidBounds => "invalid_bounds",
            Self::TooManyMarkers => "too_many_markers",
            Self::DuplicateId => "duplicate_id",
            Self::PointOutOfBounds => "point_out_of_bounds",
            Self::InvalidRadius => "invalid_radius",
            Self::InvalidShape => "invalid_shape",
            Self::WrongShapeKind => "wrong_shape_kind",
        }
    }
}

/// Whether `c` has the Unicode `White_Space` property: the characters that `str::trim`
/// strips.
pub open spec fn is_white_space(c: char) -> bool {
    let u = c as u32;
    (0x9 <= u <= 0xD) || u == 0x20 || u == 0x85 || u == 0xA0 || u == 0x1680 || (0x2000 <= u
        <= 0x200A) || u == 0x2028 || u == 0x2029 || u == 0x202F || u == 0x205F || u == 0x3000
}

/// Whether a text is empty once trimmed: every character in it is white space.
pub open spec fn is_blank(s: Seq<char>) -> bool {
    forall|i: int| 0 <= i < s.len() ==> is_white_space(#[trigger] s[i])
}

fn white_space_char(c: char) -> (r: bool)
    ensures
        r == is_white_space(c),
{
    let u = c as u32;
    (0x9 <= u && u <= 0xD) || u == 0x20 || u == 0x85 || u == 0xA0 || u == 0x1680 || (0x2000 <= u
        && u <= 0x200A) || u == 0x2028 || u == 0x2029 || u == 0x202F || u == 0x205F || u == 0x3000
}

pub(crate) fn blank_text(s: &str) -> (r: bool)
    ensures
        r == is_blank(s@),
{
    let n = s.unicode_len();
    let mut i: usize = 0;
    while i < n
        invariant
            n == s@.len(),
            i <= n,
            forall|j: int| 0 <= j < i ==> is_white_space(#[trigger] s@[j]),
        decreases n - i,
    {
        let c = s.get_char(i);
        if !white_space_char(c) {
            return false;
        }
        i += 1;
    }
    true
}

/// Whether two texts are equal, compared through their UTF-8 bytes.
pub(crate) fn same_text(a: &str, b: &str) -> (r: bool)
    ensures
        r == (a@ == b@),
{
    let x = a.as_bytes();
    let y = b.as_bytes();
    proof {
        vstd::utf8::encode_utf8_decode_utf8(a@);
        vstd::utf8::encode_utf8_decode_utf8(b@);
    }
    if x.len() != y.len() {
        return false;
    }
    let mut i: usize = 0;
    while i < x.len()
        invariant
            x@.len() == y@.len(),
            x@ == vstd::utf8::encode_utf8(a@),
            y@ == vstd::utf8::encode_utf8(b@),
            i <= x@.len(),
            forall|j: int| 0 <= j < i ==> x@[j] == y@[j],
        decreases x@.len() - i,
    {
        if x[i] != y[i] {
            return false;
        }
        i += 1;
    }
    assert(x@ =~= y@);
    true
}

/// What the checks of one marker give, in the order they are made: its id, then the first
/// failure among its own checks, if any.
pub type MarkerCheck = (Seq<char>, Option<MapDataValidationError>);

pub open spec fn point_error(bounds: MapBounds, point: MapPoint) -> Option<MapDataValidationError> {
    if bounds_contain(bounds, point) {
        None
    } else {
        Some(MapDataValidationError::PointOutOfBounds)
    }
}

pub open spec fn spawn_check(bounds: MapBounds, spawn: SpawnPoint) -> MarkerCheck {
    (spawn.id@, point_error(bounds, spawn.point))
}

pub open spec fn capture_check(bounds: MapBounds, capture: CapturePoint) -> MarkerCheck {
    (
        capture.id@,
        if !bounds_contain(bounds, capture.center) {
            Some(MapDataValidationError::PointOutOfBounds)
        } else if capture.radius_mm == 0 {
            Some(MapDataValidationError::InvalidRadius)
        } else {
            None
        },
    )
}

pub open spec fn shape_check(bounds: MapBounds, shape: MapShape, kind: MapShapeKind) -> MarkerCheck {
    (
        shape.id@,
        if shape.kind != kind {
            Some(MapDataValidationError::WrongShapeKind)
        } else if !bounds_contain(bounds, shape.center) {
            Some(MapDataValidationError::PointOutOfBounds)
        } else if shape.half_extents_mm.x_mm <= 0 || shape.half_extents_mm.y_mm <= 0 {
            Some(MapDataValidationError::InvalidShape)
        } else {
            None
        },
    )
}

pub open spec fn shape_checks(bounds: MapBounds, shapes: Seq<MapShape>, kind: MapShapeKind) -> Seq<
    MarkerCheck,
> {
    shapes.map_values(|s: MapShape| shape_check(bounds, s, kind))
}

/// The checks of every marker of a map: spawn points, capture points, obstacles, cover objects,
/// then navigation hints, each kind in its own order.
pub open spec fn marker_checks(map: MapDataImport) -> Seq<MarkerCheck> {
    let b = map.bounds_mm;
    map.spawn_points@.map_values(|s: SpawnPoint| spawn_check(b, s)) + map.capture_points@.map_values(
        |c: CapturePoint| capture_check(b, c),
    ) + shape_checks(b, map.obstacles@, MapShapeKind::Obstacle) + shape_checks(
        b,
        map.cover_objects@,
        MapShapeKind::Cover,
    ) + shape_checks(b, map.navigation_hints@, MapShapeKind::NavigationHint)
}

/// The ids that a list of checks records once each has passed.
pub open spec fn check_ids(checks: Seq<MarkerCheck>) -> Seq<Seq<char>> {
    checks.map_values(|c: MarkerCheck| c.0)
}

/// Goes through the checks in order, with the ids already seen: a blank id or one seen
/// before fails with `DuplicateId`, else the marker's own first failure stands.
pub open spec fn scan_markers(seen: Seq<Seq<char>>, checks: Seq<MarkerCheck>) -> Result<
    (),
    MapDataValidationError,
>
    decreases checks.len(),
{
    if checks.len() == 0 {
        Ok(())
    } else if is_blank(checks[0].0) || seen.contains(checks[0].0) {
        Err(MapDataValidationError::DuplicateId)
    } else if checks[0].1 is Some {
        Err(checks[0].1->0)
    } else {
        scan_markers(seen.push(checks[0].0), checks.drop_first())
    }
}

proof fn lemma_ok_is_unit(r: Result<(), MapDataValidationError>)
    requires
        r is Ok,
    ensures
        r == Ok::<(), MapDataValidationError>(()),
{
    let u: () = r->Ok_0;
    assert(u == ());
}

proof fn lemma_scan_append(seen: Seq<Seq<char>>, a: Seq<MarkerCheck>, b: Seq<MarkerCheck>)
    ensures
        scan_markers(seen, a + b) == (match scan_markers(seen, a) {
            Ok(_) => scan_markers(seen + check_ids(a), b),
            Err(e) => Err(e),
        }),
    decreases a.len(),
{
    if a.len() == 0 {
        assert(a + b =~= b);
        assert(seen + check_ids(a) =~= seen);
    } else {
        assert((a + b)[0] == a[0]);
        assert((a + b).drop_first() =~= a.drop_first() + b);
        lemma_scan_append(seen.push(a[0].0), a.drop_first(), b);
        assert(seen.push(a[0].0) + check_ids(a.drop_first()) =~= seen + check_ids(a));
    }
}

proof fn lemma_scan_step(seen: Seq<Seq<char>>, checks: Seq<MarkerCheck>, i: int)
    requires
        0 <= i < checks.len(),
    ensures
        scan_markers(seen, checks.skip(i)) == (if is_blank(checks[i].0) || seen.contains(
            checks[i].0,
        ) {
            Err(MapDataValidationError::DuplicateId)
        } else if checks[i].1 is Some {
            Err(checks[i].1->0)
        } else {
            scan_markers(seen.push(checks[i].0), checks.skip(i + 1))
        }),
{
    assert(checks.skip(i)[0] == checks[i]);
    assert(checks.skip(i).drop_first() =~= checks.skip(i + 1));
}

proof fn lemma_scan_ok_unique(seen: Seq<Seq<char>>, checks: Seq<MarkerCheck>)
    requires
        scan_markers(seen, checks) is Ok,
    ensures
        forall|i: int| 0 <= i < checks.len() ==> !seen.contains(#[trigger] checks[i].0) && !is_blank(checks[i].0),
        forall|i: int, j: int| 0 <= i < j < checks.len() ==> checks[i].0 != checks[j].0,
    decreases checks.len(),
{
    if checks.len() > 0 {
        let rest = checks.drop_first();
        let seen1 = seen.push(checks[0].0);
        lemma_scan_ok_unique(seen1, rest);
        assert forall|i: int| 0 <= i < checks.len() implies !seen.contains(#[trigger] checks[i].0) && !is_blank(
            checks[i].0,
        ) by {
            if i > 0 {
                assert(checks[i] == rest[i - 1]);
                if seen.contains(checks[i].0) {
                    let k = choose|k: int| 0 <= k < seen.len() && seen[k] == checks[i].0;
                    assert(seen1[k] == checks[i].0);
                }
            }
        }
        assert forall|i: int, j: int| 0 <= i < j < checks.len() implies checks[i].0 != checks[j].0 by {
            assert(checks[j] == rest[j - 1]);
            if i == 0 {
                assert(seen1[seen.len() as int] == checks[0].0);
                assert(!seen1.contains(rest[j - 1].0));
            } else {
                assert(checks[i] == rest[i - 1]);
            }
        }
    }
}

/// A valid map import uses each marker id once, across all kinds of markers, and no id is
/// blank.
pub proof fn lemma_validated_ids_unique(map: MapDataImport)
    requires
        map_validation(map) is Ok,
    ensures
        forall|i: int| 0 <= i < marker_checks(map).len() ==> !is_blank(#[trigger] marker_checks(map)[i].0),
        forall|i: int, j: int|
            0 <= i < j < marker_checks(map).len() ==> marker_checks(map)[i].0 != marker_checks(map)[j].0,
{
    lemma_scan_ok_unique(Seq::empty(), marker_checks(map));
}

/// In a valid map import the obstacles have distinct ids, and so do the cover objects.
pub proof fn lemma_validated_shape_ids_unique(map: MapDataImport)
    requires
        map_validation(map) is Ok,
    ensures
        forall|i: int, j: int|
            0 <= i < j < map.obstacles@.len() ==> map.obstacles@[i].id@ != map.obstacles@[j].id@,
        forall|i: int, j: int|
            0 <= i < j < map.cover_objects@.len() ==> map.cover_objects@[i].id@ != map.cover_objects@[j].id@,
{
    lemma_validated_ids_unique(map);
    let b = map.bounds_mm;
    let s0 = map.spawn_points@.map_values(|s: SpawnPoint| spawn_check(b, s));
    let s1 = map.capture_points@.map_values(|c: CapturePoint| capture_check(b, c));
    let s2 = shape_checks(b, map.obstacles@, MapShapeKind::Obstacle);
    let s3 = shape_checks(b, map.cover_objects@, MapShapeKind::Cover);
    let s4 = shape_checks(b, map.navigation_hints@, MapShapeKind::NavigationHint);
    let all = marker_checks(map);
    assert(all == s0 + s1 + s2 + s3 + s4);
    let a = s0.len() + s1.len();
    assert forall|i: int, j: int| 0 <= i < j < map.obstacles@.len() implies map.obstacles@[i].id@
        != map.obstacles@[j].id@ by {
        assert(all[a + i] == s2[i]);
        assert(all[a + j] == s2[j]);
    }
    let c = a + s2.len();
    assert forall|i: int, j: int| 0 <= i < j < map.cover_objects@.len() implies map.cover_objects@[i].id@
        != map.cover_objects@[j].id@ by {
        assert(all[c + i] == s3[i]);
        assert(all[c + j] == s3[j]);
    }
}

/// Every obstacle of a valid map import has positive half extents.
pub proof fn lemma_validated_obstacles_solid(map: MapDataImport)
    requires
        map_validation(map) is Ok,
    ensures
        forall|k: int|
            0 <= k < map.obstacles@.len() ==> (#[trigger] map.obstacles@[k]).half_extents_mm.x_mm > 0
                && map.obstacles@[k].half_extents_mm.y_mm > 0,
{
    let b = map.bounds_mm;
    let s0 = map.spawn_points@.map_values(|s: SpawnPoint| spawn_check(b, s));
    let s1 = map.capture_points@.map_values(|c: CapturePoint| capture_check(b, c));
    let s2 = shape_checks(b, map.obstacles@, MapShapeKind::Obstacle);
    let s3 = shape_checks(b, map.cover_objects@, MapShapeKind::Cover);
    let s4 = shape_checks(b, map.navigation_hints@, MapShapeKind::NavigationHint);
    let e = Seq::<Seq<char>>::empty();
    assert(marker_checks(map) == s0 + s1 + s2 + s3 + s4);
    lemma_scan_append(e, s0 + s1 + s2 + s3, s4);
    lemma_scan_append(e, s0 + s1 + s2, s3);
    lemma_scan_append(e, s0 + s1, s2);
    let seen = e + check_ids(s0 + s1);
    assert(scan_markers(seen, s2) is Ok);
    lemma_scan_ok_checks(seen, s2);
    assert forall|k: int| 0 <= k < map.obstacles@.len() implies (#[trigger] map.obstacles@[k]).half_extents_mm.x_mm > 0
        && map.obstacles@[k].half_extents_mm.y_mm > 0 by {
        assert(s2[k] == shape_check(b, map.obstacles@[k], MapShapeKind::Obstacle));
    }
}

/// Every marker of a valid map import lies in the closed rectangle of its bounds: each spawn
/// point, each capture point's centre and the centre of each obstacle, cover object and
/// navigation hint.
pub proof fn lemma_validated_markers_inside_bounds(map: MapDataImport)
    requires
        map_validation(map) is Ok,
    ensures
        forall|k: int|
            0 <= k < map.spawn_points@.len() ==> map.bounds_mm.min_x <= (#[trigger] map.spawn_points@[k]).point.x_mm
                <= map.bounds_mm.max_x && map.bounds_mm.min_y <= map.spawn_points@[k].point.y_mm
                <= map.bounds_mm.max_y,
        forall|k: int|
            0 <= k < map.capture_points@.len() ==> map.bounds_mm.min_x <= (
            #[trigger] map.capture_points@[k]).center.x_mm <= map.bounds_mm.max_x && map.bounds_mm.min_y
                <= map.capture_points@[k].center.y_mm <= map.bounds_mm.max_y,
        forall|k: int|
            0 <= k < map.obstacles@.len() ==> map.bounds_mm.min_x <= (#[trigger] map.obstacles@[k]).center.x_mm
                <= map.bounds_mm.max_x && map.bounds_mm.min_y <= map.obstacles@[k].center.y_mm
                <= map.bounds_mm.max_y,
        forall|k: int|
            0 <= k < map.cover_objects@.len() ==> map.bounds_mm.min_x <= (
            #[trigger] map.cover_objects@[k]).center.x_mm <= map.bounds_mm.max_x && map.bounds_mm.min_y
                <= map.cover_objects@[k].center.y_mm <= map.bounds_mm.max_y,
        forall|k: int|
            0 <= k < map.navigation_hints@.len() ==> map.bounds_mm.min_x <= (
            #[trigger] map.navigation_hints@[k]).center.x_mm <= map.bounds_mm.max_x && map.bounds_mm.min_y
                <= map.navigation_hints@[k].center.y_mm <= map.bounds_mm.max_y,
{
    let b = map.bounds_mm;
    let s0 = map.spawn_points@.map_values(|s: SpawnPoint| spawn_check(b, s));
    let s1 = map.capture_points@.map_values(|c: CapturePoint| capture_check(b, c));
    let s2 = shape_checks(b, map.obstacles@, MapShapeKind::Obstacle);
    let s3 = shape_checks(b, map.cover_objects@, MapShapeKind::Cover);
    let s4 = shape_checks(b, map.navigation_hints@, MapShapeKind::NavigationHint);
    let all = marker_checks(map);
    assert(all == s0 + s1 + s2 + s3 + s4);
    lemma_scan_ok_checks(Seq::empty(), all);
    let a1 = s0.len() as int;
    let a2 = a1 + s1.len();
    let a3 = a2 + s2.len();
    let a4 = a3 + s3.len();
    assert forall|k: int| 0 <= k < map.spawn_points@.len() implies b.min_x <= (
    #[trigger] map.spawn_points@[k]).point.x_mm <= b.max_x && b.min_y <= map.spawn_points@[k].point.y_mm
        <= b.max_y by {
        assert(all[k] == s0[k]);
    }
    assert forall|k: int| 0 <= k < map.capture_points@.len() implies b.min_x <= (
    #[trigger] map.capture_points@[k]).center.x_mm <= b.max_x && b.min_y <= map.capture_points@[k].center.y_mm
        <= b.max_y by {
        assert(all[a1 + k] == s1[k]);
    }
    assert forall|k: int| 0 <= k < map.obstacles@.len() implies b.min_x <= (
    #[trigger] map.obstacles@[k]).center.x_mm <= b.max_x && b.min_y <= map.obstacles@[k].center.y_mm
        <= b.max_y by {
        assert(all[a2 + k] == s2[k]);
    }
    assert forall|k: int| 0 <= k < map.cover_objects@.len() implies b.min_x <= (
    #[trigger] map.cover_objects@[k]).center.x_mm <= b.max_x && b.min_y <= map.cover_objects@[k].center.y_mm
        <= b.max_y by {
        assert(all[a3 + k] == s3[k]);
    }
    assert forall|k: int| 0 <= k < map.navigation_hints@.len() implies b.min_x <= (
    #[trigger] map.navigation_hints@[k]).center.x_mm <= b.max_x && b.min_y
        <= map.navigation_hints@[k].center.y_mm <= b.max_y by {
        assert(all[a4 + k] == s4[k]);
    }
}

proof fn lemma_scan_ok_checks(seen: Seq<Seq<char>>, checks: Seq<MarkerCheck>)
    requires
        scan_markers(seen, checks) is Ok,
    ensures
        forall|i: int| 0 <= i < checks.len() ==> (#[trigger] checks[i]).1 is None,
    decreases checks.len(),
{
    if checks.len() > 0 {
        lemma_scan_ok_checks(seen.push(checks[0].0), checks.drop_first());
        assert forall|i: int| 0 <= i < checks.len() implies (#[trigger] checks[i]).1 is None by {
            if i > 0 {
                assert(checks[i] == checks.drop_first()[i - 1]);
            }
        }
    }
}

/// The outcome of validating a map import, check by check in the order they are made.
pub open spec fn map_validation(map: MapDataImport) -> Result<(), MapDataValidationError> {
    if map.schema@ != MAP_DATA_SCHEMA@ {
        Err(MapDataValidationError::UnsupportedSchema)
    } else if is_blank(map.map_id@) {
        Err(MapDataValidationError::MissingMapId)
    } else if is_blank(map.checksum@) {
        Err(MapDataValidationError::MissingChecksum)
    } else if bounds_width(map.bounds_mm) < MIN_MAP_EXTENT_MM || bounds_height(map.bounds_mm)
        < MIN_MAP_EXTENT_MM || bounds_width(map.bounds_mm) > MAX_MAP_EXTENT_MM || bounds_height(
        map.bounds_mm,
    ) > MAX_MAP_EXTENT_MM {
        Err(MapDataValidationError::InvalidBounds)
    } else if map.spawn_points.len() > MAX_MAP_MARKERS_PER_KIND || map.capture_points.len()
        > MAX_MAP_MARKERS_PER_KIND || map.obstacles.len() > MAX_MAP_MARKERS_PER_KIND
        || map.cover_objects.len() > MAX_MAP_MARKERS_PER_KIND || map.navigation_hints.len()
        > MAX_MAP_MARKERS_PER_KIND {
        Err(MapDataValidationError::TooManyMarkers)
    } else {
        scan_markers(Seq::empty(), marker_checks(map))
    }
}

pub open spec fn texts(ids: Seq<String>) -> Seq<Seq<char>> {
    ids.map_values(|s: String| s@)
}

fn validate_bounds(bounds: MapBounds) -> (r: Result<(), MapDataValidationError>)
    ensures
        r is Ok <==> (MIN_MAP_EXTENT_MM <= bounds_width(bounds) <= MAX_MAP_EXTENT_MM
            && MIN_MAP_EXTENT_MM <= bounds_height(bounds) <= MAX_MAP_EXTENT_MM),
        r is Err ==> r == Err::<(), MapDataValidationError>(MapDataValidationError::InvalidBounds),
{
    let width = bounds.width_mm();
    let height = bounds.height_mm();
    if width < MIN_MAP_EXTENT_MM || height < MIN_MAP_EXTENT_MM || width > MAX_MAP_EXTENT_MM
        || height > MAX_MAP_EXTENT_MM {
        return Err(MapDataValidationError::InvalidBounds);
    }
    Ok(())
}

fn validate_count(count: usize) -> (r: Result<(), MapDataValidationError>)
    ensures
        r == (if count > MAX_MAP_MARKERS_PER_KIND {
            Err(MapDataValidationError::TooManyMarkers)
        } else {
            Ok(())
        }),
{
    if count > MAX_MAP_MARKERS_PER_KIND {
        return Err(MapDataValidationError::TooManyMarkers);
    }
    Ok(())
}

fn validate_id(id: &String, ids: &mut Vec<String>) -> (r: Result<(), MapDataValidationError>)
    ensures
        r == (if is_blank(id@) || texts(old(ids)@).contains(id@) {
            Err(MapDataValidationError::DuplicateId)
        } else {
            Ok(())
        }),
        r is Ok ==> texts(final(ids)@) == texts(old(ids)@).push(id@),
{
    if blank_text(id.as_str()) {
        return Err(MapDataValidationError::DuplicateId);
    }
    let mut j: usize = 0;
    while j < ids.len()
        invariant
            j <= ids@.len(),
            forall|k: int| 0 <= k < j ==> ids@[k]@ != id@,
        decreases ids@.len() - j,
    {
        if same_text(ids[j].as_str(), id.as_str()) {
            assert(texts(ids@)[j as int] == id@);
            return Err(MapDataValidationError::DuplicateId);
        }
        j += 1;
    }
    assert(!texts(ids@).contains(id@)) by {
        if texts(ids@).contains(id@) {
            let k = choose|k: int| 0 <= k < texts(ids@).len() && texts(ids@)[k] == id@;
            assert(ids@[k]@ == id@);
        }
    }
    ids.push(id.clone());
    assert(texts(ids@) =~= texts(old(ids)@).push(id@));
    Ok(())
}

fn validate_point(bounds: MapBounds, point: MapPoint) -> (r: Result<(), MapDataValidationError>)
    ensures
        r == (match point_error(bounds, point) {
            Some(e) => Err(e),
            None => Ok(()),
        }),
{
    if !bounds.contains_point(point) {
        return Err(MapDataValidationError::PointOutOfBounds);
    }
    Ok(())
}

pub open spec fn spawn_checks(bounds: MapBounds, spawns: Seq<SpawnPoint>) -> Seq<MarkerCheck> {
    spawns.map_values(|s: SpawnPoint| spawn_check(bounds, s))
}

pub open spec fn capture_checks(bounds: MapBounds, captures: Seq<CapturePoint>) -> Seq<MarkerCheck> {
    captures.map_values(|c: CapturePoint| capture_check(bounds, c))
}

proof fn lemma_ids_take_step(checks: Seq<MarkerCheck>, i: int)
    requires
        0 <= i < checks.len(),
    ensures
        check_ids(checks.take(i + 1)) == check_ids(checks.take(i)).push(checks[i].0),
{
    assert(check_ids(checks.take(i + 1)) =~= check_ids(checks.take(i)).push(checks[i].0));
}

fn validate_spawns(bounds: MapBounds, spawns: &Vec<SpawnPoint>, ids: &mut Vec<String>) -> (r: Result<
    (),
    MapDataValidationError,
>)
    ensures
        r == scan_markers(texts(old(ids)@), spawn_checks(bounds, spawns@)),
        r is Ok ==> texts(final(ids)@) == texts(old(ids)@) + check_ids(spawn_checks(bounds, spawns@)),
{
    let ghost checks = spawn_checks(bounds, spawns@);
    let ghost seen0 = texts(ids@);
    let mut i: usize = 0;
    assert(checks.skip(0) =~= checks);
    while i < spawns.len()
        invariant
            checks == spawn_checks(bounds, spawns@),
            i <= spawns@.len(),
            seen0 == texts(old(ids)@),
            scan_markers(seen0, checks) == scan_markers(texts(ids@), checks.skip(i as int)),
            texts(ids@) == seen0 + check_ids(checks.take(i as int)),
        decreases spawns@.len() - i,
    {
        proof {
            lemma_scan_step(texts(ids@), checks, i as int);
            lemma_ids_take_step(checks, i as int);
            assert(checks[i as int] == spawn_check(bounds, spawns@[i as int]));
        }
        let spawn = &spawns[i];
        let checked = validate_id(&spawn.id, ids);
        if checked.is_err() {
            return checked;
        }
        let checked = validate_point(bounds, spawn.point);
        if checked.is_err() {
            return checked;
        }
        i += 1;
    }
    assert(checks.skip(i as int) =~= Seq::<MarkerCheck>::empty());
    assert(checks.take(i as int) =~= checks);
    Ok(())
}

fn validate_captures(bounds: MapBounds, captures: &Vec<CapturePoint>, ids: &mut Vec<String>) -> (r:
    Result<(), MapDataValidationError>)
    ensures
        r == scan_markers(texts(old(ids)@), capture_checks(bounds, captures@)),
        r is Ok ==> texts(final(ids)@) == texts(old(ids)@) + check_ids(
            capture_checks(bounds, captures@),
        ),
{
    let ghost checks = capture_checks(bounds, captures@);
    let ghost seen0 = texts(ids@);
    let mut i: usize = 0;
    assert(checks.skip(0) =~= checks);
    while i < captures.len()
        invariant
            checks == capture_checks(bounds, captures@),
            i <= captures@.len(),
            seen0 == texts(old(ids)@),
            scan_markers(seen0, checks) == scan_markers(texts(ids@), checks.skip(i as int)),
            texts(ids@) == seen0 + check_ids(checks.take(i as int)),
        decreases captures@.len() - i,
    {
        proof {
            lemma_scan_step(texts(ids@), checks, i as int);
            lemma_ids_take_step(checks, i as int);
            assert(checks[i as int] == capture_check(bounds, captures@[i as int]));
        }
        let capture = &captures[i];
        let checked = validate_id(&capture.id, ids);
        if checked.is_err() {
            return checked;
        }
        let checked = validate_point(bounds, capture.center);
        if checked.is_err() {
            return checked;
        }
        if capture.radius_mm == 0 {
            return Err(MapDataValidationError::InvalidRadius);
        }
        i += 1;
    }
    assert(checks.skip(i as int) =~= Seq::<MarkerCheck>::empty());
    assert(checks.take(i as int) =~= checks);
    Ok(())
}

fn validate_shape(bounds: MapBounds, shape: &MapShape, expected_kind: MapShapeKind, ids: &mut Vec<
    String,
>) -> (r: Result<(), MapDataValidationError>)
    ensures
        r == (if is_blank(shape.id@) || texts(old(ids)@).contains(shape.id@) {
            Err(MapDataValidationError::DuplicateId)
        } else {
            match shape_check(bounds, *shape, expected_kind).1 {
                Some(e) => Err(e),
                None => Ok(()),
            }
        }),
        r is Ok ==> texts(final(ids)@) == texts(old(ids)@).push(shape.id@),
{
    let checked = validate_id(&shape.id, ids);
    if checked.is_err() {
        return checked;
    }
    if shape.kind != expected_kind {
        return Err(MapDataValidationError::WrongShapeKind);
    }
    let checked = validate_point(bounds, shape.center);
    if checked.is_err() {
        return checked;
    }
    if shape.half_extents_mm.x_mm <= 0 || shape.half_extents_mm.y_mm <= 0 {
        return Err(MapDataValidationError::InvalidShape);
    }
    Ok(())
}

fn validate_shapes(bounds: MapBounds, shapes: &Vec<MapShape>, kind: MapShapeKind, ids: &mut Vec<
    String,
>) -> (r: Result<(), MapDataValidationError>)
    ensures
        r == scan_markers(texts(old(ids)@), shape_checks(bounds, shapes@, kind)),
        r is Ok ==> texts(final(ids)@) == texts(old(ids)@) + check_ids(
            shape_checks(bounds, shapes@, kind),
        ),
{
    let ghost checks = shape_checks(bounds, shapes@, kind);
    let ghost seen0 = texts(ids@);
    let mut i: usize = 0;
    assert(checks.skip(0) =~= checks);
    while i < shapes.len()
        invariant
            checks == shape_checks(bounds, shapes@, kind),
            i <= shapes@.len(),
            seen0 == texts(old(ids)@),
            scan_markers(seen0, checks) == scan_markers(texts(ids@), checks.skip(i as int)),
            texts(ids@) == seen0 + check_ids(checks.take(i as int)),
        decreases shapes@.len() - i,
    {
        proof {
            lemma_scan_step(texts(ids@), checks, i as int);
            lemma_ids_take_step(checks, i as int);
            assert(checks[i as int] == shape_check(bounds, shapes@[i as int], kind));
        }
        let checked = validate_shape(bounds, &shapes[i], kind, ids);
        if checked.is_err() {
            return checked;
        }
        i += 1;
    }
    assert(checks.skip(i as int) =~= Seq::<MarkerCheck>::empty());
    assert(checks.take(i as int) =~= checks);
    Ok(())
}

/// Validates a map import: the schema, the map id and checksum, the extent of the bounds, the
/// number of markers of each kind, then every marker in turn (its id unique across all
/// kinds and not blank, its point inside the bounds, its own limits).
pub fn validate_map_data_import(map: &MapDataImport) -> (r: Result<(), MapDataValidationError>)
    ensures
        r == map_validation(*map),
{
    if !same_text(map.schema, MAP_DATA_SCHEMA) {
        return Err(MapDataValidationError::UnsupportedSchema);
    }
    if blank_text(map.map_id.as_str()) {
        return Err(MapDataValidationError::MissingMapId);
    }
    if blank_text(map.checksum.as_str()) {
        return Err(MapDataValidationError::MissingChecksum);
    }
    let checked = validate_bounds(map.bounds_mm);
    if checked.is_err() {
        return checked;
    }
    let checked = validate_count(map.spawn_points.len());
    if checked.is_err() {
        return checked;
    }
    let checked = validate_count(map.capture_points.len());
    if checked.is_err() {
        return checked;
    }
    let checked = validate_count(map.obstacles.len());
    if checked.is_err() {
        return checked;
    }
    let checked = validate_count(map.cover_objects.len());
    if checked.is_err() {
        return checked;
    }
    let checked = validate_count(map.navigation_hints.len());
    if checked.is_err() {
        return checked;
    }

    let b = map.bounds_mm;
    let ghost s0 = spawn_checks(b, map.spawn_points@);
    let ghost s1 = capture_checks(b, map.capture_points@);
    let ghost s2 = shape_checks(b, map.obstacles@, MapShapeKind::Obstacle);
    let ghost s3 = shape_checks(b, map.cover_objects@, MapShapeKind::Cover);
    let ghost s4 = shape_checks(b, map.navigation_hints@, MapShapeKind::NavigationHint);
    proof {
        let e = Seq::<Seq<char>>::empty();
        assert(marker_checks(*map) == s0 + s1 + s2 + s3 + s4);
        lemma_scan_append(e, s0 + s1 + s2 + s3, s4);
        lemma_scan_append(e, s0 + s1 + s2, s3);
        lemma_scan_append(e, s0 + s1, s2);
        lemma_scan_append(e, s0, s1);
        assert(check_ids(s0 + s1) =~= check_ids(s0) + check_ids(s1));
        assert(check_ids(s0 + s1 + s2) =~= check_ids(s0 + s1) + check_ids(s2));
        assert(check_ids(s0 + s1 + s2 + s3) =~= check_ids(s0 + s1 + s2) + check_ids(s3));
        assert(e + check_ids(s0) =~= check_ids(s0));
        assert(e + check_ids(s0 + s1) =~= check_ids(s0 + s1));
        assert(e + check_ids(s0 + s1 + s2) =~= check_ids(s0 + s1 + s2));
        assert(e + check_ids(s0 + s1 + s2 + s3) =~= check_ids(s0 + s1 + s2 + s3));
    }
    let mut ids: Vec<String> = Vec::new();
    assert(texts(ids@) =~= Seq::<Seq<char>>::empty());
    let checked = validate_spawns(b, &map.spawn_points, &mut ids);
    if checked.is_err() {
        return checked;
    }
    assert(texts(ids@) =~= check_ids(s0));
    let checked = validate_captures(b, &map.capture_points, &mut ids);
    if checked.is_err() {
        return checked;
    }
    assert(texts(ids@) == check_ids(s0 + s1));
    assert(scan_markers(Seq::empty(), s0 + s1) is Ok);
    let checked = validate_shapes(b, &map.obstacles, MapShapeKind::Obstacle, &mut ids);
    if checked.is_err() {
        return checked;
    }
    assert(texts(ids@) == check_ids(s0 + s1 + s2));
    assert(scan_markers(Seq::empty(), s0 + s1 + s2) is Ok);
    let checked = validate_shapes(b, &map.cover_objects, MapShapeKind::Cover, &mut ids);
    if checked.is_err() {
        return checked;
    }
    assert(texts(ids@) == check_ids(s0 + s1 + s2 + s3));
    assert(scan_markers(Seq::empty(), s0 + s1 + s2 + s3) is Ok);
    let checked = validate_shapes(
        b,
        &map.navigation_hints,
        MapShapeKind::NavigationHint,
        &mut ids,
    );
    if checked.is_err() {
        return checked;
    }
    proof {
        lemma_ok_is_unit(scan_markers(Seq::empty(), marker_checks(*map)));
    }
    Ok(())
}

/// The running sum of the bytes, kept below 65535 by taking the remainder after each byte.
pub open spec fn sum16(bytes: Seq<u8>) -> nat
    decreases bytes.len(),
{
    if bytes.len() == 0 {
        0
    } else {
        ((sum16(bytes.drop_last()) + bytes.last()) % 65535) as nat
    }
}

/// A lower-case hexadecimal digit.
pub open spec fn hex_digit(d: int) -> char {
    if d < 10 {
        (48 + d) as char
    } else {
        (87 + d) as char
    }
}

/// The four lowest hexadecimal digits of `v`, most significant first.
pub open spec fn hex4(v: int) -> Seq<char> {
    seq![hex_digit((v / 4096) % 16), hex_digit((v / 256) % 16), hex_digit((v / 16) % 16), hex_digit(v % 16)]
}

/// The checksum text: `sum16:` and the sum in four hexadecimal digits.
pub open spec fn sum16_label(v: int) -> Seq<char> {
    seq!['s', 'u', 'm', '1', '6', ':'] + hex4(v)
}

/// The hexadecimal digit of a value below 16.
fn hex_char(d: u32) -> (r: char)
    requires
        d < 16,
    ensures
        r == hex_digit(d as int),
{
    if d < 10 {
        (48u8 + d as u8) as char
    } else {
        (87u8 + d as u8) as char
    }
}

/// The checksum text: the prefix `sum16:`, then `sum` in four lower-case hexadecimal digits.
fn sum16_text(sum: u32) -> (r: String)
    requires
        sum < 65536,
    ensures
        r@ == sum16_label(sum as int),
{
    proof {
        reveal_strlit("sum16:");
    }
    let mut r = String::from_str("sum16:");
    r.push(hex_char((sum / 4096) % 16));
    r.push(hex_char((sum / 256) % 16));
    r.push(hex_char((sum / 16) % 16));
    r.push(hex_char(sum % 16));
    proof {
        assert(r@ =~= sum16_label(sum as int));
    }
    r
}

/// The checksum of a map data fixture: its bytes summed modulo 65535, written in hexadecimal.
pub fn map_data_fixture_checksum(bytes: &[u8]) -> (r: String)
    ensures
        r@ == sum16_label(sum16(bytes@) as int),
{
    let mut sum: u32 = 0;
    let mut i: usize = 0;
    while i < bytes.len()
        invariant
            i <= bytes@.len(),
            sum == sum16(bytes@.take(i as int)),
            sum < 65535,
        decreases bytes@.len() - i,
    {
        assert(bytes@.take(i + 1).drop_last() =~= bytes@.take(i as int));
        sum = (sum + bytes[i] as u32) % 65_535;
        i += 1;
    }
    assert(bytes@.take(i as int) =~= bytes@);
    sum16_text(sum)
}

} // verus!
