use millions_server::map_data::{CapturePoint, MAP_DATA_FIXTURE_CHECKSUM_ALGORITHM, MAP_DATA_SCHEMA, MapBounds, MapDataImport, MapDataValidationError, MapPoint, MapShape, MapShapeKind, SpawnPoint, map_data_fixture_checksum, validate_map_data_import};

fn sample_map() -> MapDataImport {
    MapDataImport {
        schema: MAP_DATA_SCHEMA,
        map_id: "local-dev-map".to_string(),
        map_version: 1,
        checksum: "sum16:fixture-sidecar".to_string(),
        bounds_mm: MapBounds {
            min_x: 0,
            min_y: 0,
            max_x: 100_000,
            max_y: 100_000,
        },
        spawn_points: vec![SpawnPoint {
            id: "spawn_a".to_string(),
            point: MapPoint {
                x_mm: 10_000,
                y_mm: 10_000,
            },
            faction_label: "local_a".to_string(),
        }],
        capture_points: vec![CapturePoint {
            id: "cap_center".to_string(),
            center: MapPoint {
                x_mm: 50_000,
                y_mm: 50_000,
            },
            radius_mm: 5000,
        }],
        obstacles: vec![MapShape {
            id: "obstacle_1".to_string(),
            kind: MapShapeKind::Obstacle,
            center: MapPoint {
                x_mm: 20_000,
                y_mm: 20_000,
            },
            half_extents_mm: MapPoint {
                x_mm: 1000,
                y_mm: 1500,
            },
            class_label: "blocker".to_string(),
        }],
        cover_objects: vec![MapShape {
            id: "cover_1".to_string(),
            kind: MapShapeKind::Cover,
            center: MapPoint {
                x_mm: 30_000,
                y_mm: 30_000,
            },
            half_extents_mm: MapPoint {
                x_mm: 800,
                y_mm: 400,
            },
            class_label: "low_cover".to_string(),
        }],
        navigation_hints: vec![MapShape {
            id: "nav_hint_1".to_string(),
            kind: MapShapeKind::NavigationHint,
            center: MapPoint {
                x_mm: 40_000,
                y_mm: 40_000,
            },
            half_extents_mm: MapPoint {
                x_mm: 2000,
                y_mm: 2000,
            },
            class_label: "blocked_cell_hint".to_string(),
        }],
    }
}

#[test]
fn map_data_import_accepts_valid_local_contract() {
    assert_eq!(validate_map_data_import(&sample_map()), Ok(()));
}

#[test]
fn map_data_import_rejects_wrong_schema() {
    let mut map = sample_map();
    map.schema = "other_schema";

    assert_eq!(
        validate_map_data_import(&map),
        Err(MapDataValidationError::UnsupportedSchema)
    );
    assert_eq!(
        MapDataValidationError::UnsupportedSchema.as_str(),
        "unsupported_schema"
    );
}

#[test]
fn map_data_import_rejects_duplicate_ids_across_marker_kinds() {
    let mut map = sample_map();
    map.capture_points[0].id = "spawn_a".to_string();

    assert_eq!(
        validate_map_data_import(&map),
        Err(MapDataValidationError::DuplicateId)
    );
}

#[test]
fn map_data_import_rejects_out_of_bounds_points() {
    let mut map = sample_map();
    map.spawn_points[0].point.x_mm = 200_000;

    assert_eq!(
        validate_map_data_import(&map),
        Err(MapDataValidationError::PointOutOfBounds)
    );
}

#[test]
fn map_data_import_rejects_zero_capture_radius() {
    let mut map = sample_map();
    map.capture_points[0].radius_mm = 0;

    assert_eq!(
        validate_map_data_import(&map),
        Err(MapDataValidationError::InvalidRadius)
    );
}

#[test]
fn map_data_import_rejects_wrong_shape_kind() {
    let mut map = sample_map();
    map.obstacles[0].kind = MapShapeKind::Cover;

    assert_eq!(
        validate_map_data_import(&map),
        Err(MapDataValidationError::WrongShapeKind)
    );
}

#[test]
fn map_data_checksum_sums_bytes_into_four_hex_digits() {
    assert_eq!(MAP_DATA_FIXTURE_CHECKSUM_ALGORITHM, "sum16_bytes");
    assert_eq!(map_data_fixture_checksum(b""), "sum16:0000");
    assert_eq!(map_data_fixture_checksum(b"abc"), "sum16:0126");
    let bytes = vec![255u8; 300];
    // 300 * 255 = 76500, and 76500 - 65535 = 10965 = 0x2ad5
    assert_eq!(map_data_fixture_checksum(&bytes), "sum16:2ad5");
}

#[test]
fn map_data_import_rejects_blank_map_id_and_checksum() {
    let mut map = sample_map();
    map.map_id = " \t ".to_string();
    assert_eq!(validate_map_data_import(&map), Err(MapDataValidationError::MissingMapId));

    let mut map = sample_map();
    map.checksum = String::new();
    assert_eq!(validate_map_data_import(&map), Err(MapDataValidationError::MissingChecksum));
}

#[test]
fn map_data_import_rejects_small_or_huge_bounds() {
    let mut map = sample_map();
    map.bounds_mm.max_x = 999;
    assert_eq!(validate_map_data_import(&map), Err(MapDataValidationError::InvalidBounds));

    let mut map = sample_map();
    map.bounds_mm.min_y = i32::MIN;
    map.bounds_mm.max_y = i32::MAX;
    assert_eq!(validate_map_data_import(&map), Err(MapDataValidationError::InvalidBounds));
    assert_eq!(map.bounds_mm.height_mm(), i32::MAX);
    assert_eq!(map.bounds_mm.width_mm(), 100_000);
}

#[test]
fn map_data_import_rejects_too_many_markers_before_ids() {
    let mut map = sample_map();
    let hint = map.navigation_hints[0].clone();
    map.navigation_hints = vec![hint; 4097];
    map.spawn_points[0].id = "  ".to_string();
    assert_eq!(validate_map_data_import(&map), Err(MapDataValidationError::TooManyMarkers));
}

#[test]
fn map_data_import_rejects_blank_marker_id_as_duplicate() {
    let mut map = sample_map();
    map.cover_objects[0].id = "\u{3000}".to_string();
    assert_eq!(validate_map_data_import(&map), Err(MapDataValidationError::DuplicateId));
}

#[test]
fn map_data_import_rejects_flat_shapes() {
    let mut map = sample_map();
    map.navigation_hints[0].half_extents_mm.y_mm = 0;
    assert_eq!(validate_map_data_import(&map), Err(MapDataValidationError::InvalidShape));
    assert_eq!(MapDataValidationError::InvalidShape.as_str(), "invalid_shape");
}

#[test]
fn map_bounds_contain_their_edges() {
    let bounds = MapBounds { min_x: -5, min_y: 0, max_x: 5, max_y: 10 };
    assert!(bounds.contains_point(MapPoint { x_mm: -5, y_mm: 10 }));
    assert!(!bounds.contains_point(MapPoint { x_mm: 6, y_mm: 0 }));
    assert_eq!(bounds.width_mm(), 10);
    assert_eq!(bounds.height_mm(), 10);
}
