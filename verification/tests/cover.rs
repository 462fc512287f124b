use millions_server::cover::{AxisAlignedVolume, COVER_SCHEMA, CoverCombatMap, CoverError, CoverObject, TargetingResult};
use millions_server::map_data::{CapturePoint, MAP_DATA_SCHEMA, MapBounds, MapDataImport, MapDataValidationError, MapPoint, MapShape, MapShapeKind, SpawnPoint};
use millions_server::simulation::{EntityId, WorldPosition};

fn shape(id: &str, kind: MapShapeKind, x_mm: i32, y_mm: i32) -> MapShape {
    MapShape {
        id: id.to_string(),
        kind,
        center: MapPoint { x_mm, y_mm },
        half_extents_mm: MapPoint {
            x_mm: 1000,
            y_mm: 1000,
        },
        class_label: match kind {
            MapShapeKind::Obstacle => "solid_blocker",
            MapShapeKind::Cover => "low_cover",
            MapShapeKind::NavigationHint => "nav_hint",
        }
        .to_string(),
    }
}

fn sample_map() -> MapDataImport {
    MapDataImport {
        schema: MAP_DATA_SCHEMA,
        map_id: "cover-test-map".to_string(),
        map_version: 3,
        checksum: "sum16:cover-test".to_string(),
        bounds_mm: MapBounds {
            min_x: 0,
            min_y: 0,
            max_x: 100_000,
            max_y: 100_000,
        },
        spawn_points: vec![SpawnPoint {
            id: "spawn_a".to_string(),
            point: MapPoint {
                x_mm: 5000,
                y_mm: 5000,
            },
            faction_label: "local_a".to_string(),
        }],
        capture_points: vec![CapturePoint {
            id: "cap_mid".to_string(),
            center: MapPoint {
                x_mm: 50_000,
                y_mm: 50_000,
            },
            radius_mm: 4000,
        }],
        obstacles: vec![shape("wall_mid", MapShapeKind::Obstacle, 50_000, 50_000)],
        cover_objects: vec![shape("cover_west", MapShapeKind::Cover, 20_000, 20_000)],
        navigation_hints: vec![shape(
            "nav_hint_east",
            MapShapeKind::NavigationHint,
            80_000,
            80_000,
        )],
    }
}

#[test]
fn cover_map_imports_obstacles_cover_and_metadata() {
    let cover_map = CoverCombatMap::from_map_data(&sample_map()).expect("cover map imports");

    assert_eq!(COVER_SCHEMA, "millions_cover_v0");
    assert_eq!(cover_map.map_id(), "cover-test-map");
    assert_eq!(cover_map.map_version(), 3);
    assert_eq!(cover_map.checksum(), "sum16:cover-test");
    assert_eq!(cover_map.obstacle_count(), 1);
    assert_eq!(cover_map.cover_count(), 1);
    assert_eq!(
        cover_map
            .obstacle_at_point(MapPoint {
                x_mm: 50_000,
                y_mm: 50_000,
            })
            .map(|obstacle| obstacle.id.as_str()),
        Some("wall_mid")
    );
    assert_eq!(
        cover_map
            .cover_at_point(MapPoint {
                x_mm: 20_000,
                y_mm: 20_000,
            })
            .map(|cover| cover.id.as_str()),
        Some("cover_west")
    );
}

#[test]
fn cover_map_rejects_invalid_map_data_before_authority() {
    let mut map = sample_map();
    map.cover_objects[0].kind = MapShapeKind::Obstacle;

    assert_eq!(
        CoverCombatMap::from_map_data(&map),
        Err(CoverError::InvalidMapData(
            MapDataValidationError::WrongShapeKind
        ))
    );
}

#[test]
fn line_of_sight_and_fire_are_blocked_by_obstacles_only() {
    let cover_map = CoverCombatMap::from_map_data(&sample_map()).expect("cover map imports");

    let blocked = cover_map.line_of_sight(
        WorldPosition {
            x_mm: 10_000,
            y_mm: 50_000,
        },
        WorldPosition {
            x_mm: 90_000,
            y_mm: 50_000,
        },
    );
    assert!(!blocked.clear);
    assert_eq!(blocked.blocking_obstacle_id.as_deref(), Some("wall_mid"));

    let clear = cover_map.line_of_fire(
        WorldPosition {
            x_mm: 10_000,
            y_mm: 10_000,
        },
        WorldPosition {
            x_mm: 90_000,
            y_mm: 10_000,
        },
    );
    assert!(clear.clear);
    assert_eq!(clear.blocking_obstacle_id, None);
}

#[test]
fn cover_occupancy_is_deterministic_bounded_and_idempotent() {
    let mut cover_map =
        CoverCombatMap::from_map_data(&sample_map()).expect("cover map imports");

    assert_eq!(
        cover_map.claim_cover_slot("cover_west", EntityId(101)),
        Ok(())
    );
    assert_eq!(
        cover_map.claim_cover_slot("cover_west", EntityId(101)),
        Ok(())
    );
    assert_eq!(
        cover_map.claim_cover_slot("cover_west", EntityId(102)),
        Ok(())
    );
    assert_eq!(
        cover_map.claim_cover_slot("cover_west", EntityId(103)),
        Err(CoverError::CoverFull)
    );
    assert_eq!(
        cover_map.occupancy("cover_west").map(|occupancy| occupancy
            .occupants
            .iter()
            .copied()
            .collect::<Vec<_>>()),
        Some(vec![EntityId(101), EntityId(102)])
    );
    assert_eq!(
        cover_map.release_cover_slot("cover_west", EntityId(101)),
        Ok(true)
    );
    assert_eq!(
        cover_map.claim_cover_slot("missing_cover", EntityId(201)),
        Err(CoverError::UnknownCoverId)
    );
}

#[test]
fn range_first_targeting_reports_clear_cover_blocked_and_out_of_range() {
    let cover_map = CoverCombatMap::from_map_data(&sample_map()).expect("cover map imports");

    let clear = cover_map.evaluate_range_first_targeting(
        EntityId(1),
        WorldPosition {
            x_mm: 10_000,
            y_mm: 10_000,
        },
        EntityId(2),
        WorldPosition {
            x_mm: 15_000,
            y_mm: 10_000,
        },
        10_000,
    );
    assert_eq!(clear.result, TargetingResult::InRangeClear);
    assert!(clear.line_of_fire.clear);
    assert_eq!(clear.target_cover_id, None);

    let target_in_cover = cover_map.evaluate_range_first_targeting(
        EntityId(1),
        WorldPosition {
            x_mm: 10_000,
            y_mm: 20_000,
        },
        EntityId(3),
        WorldPosition {
            x_mm: 20_000,
            y_mm: 20_000,
        },
        15_000,
    );
    assert_eq!(
        target_in_cover.result,
        TargetingResult::InRangeTargetInCover
    );
    assert_eq!(
        target_in_cover.target_cover_id.as_deref(),
        Some("cover_west")
    );

    let blocked = cover_map.evaluate_range_first_targeting(
        EntityId(1),
        WorldPosition {
            x_mm: 10_000,
            y_mm: 50_000,
        },
        EntityId(4),
        WorldPosition {
            x_mm: 90_000,
            y_mm: 50_000,
        },
        100_000,
    );
    assert_eq!(blocked.result, TargetingResult::BlockedByObstacle);
    assert_eq!(
        blocked.line_of_fire.blocking_obstacle_id.as_deref(),
        Some("wall_mid")
    );

    let out_of_range = cover_map.evaluate_range_first_targeting(
        EntityId(1),
        WorldPosition {
            x_mm: 10_000,
            y_mm: 10_000,
        },
        EntityId(5),
        WorldPosition {
            x_mm: 90_000,
            y_mm: 90_000,
        },
        10_000,
    );
    assert_eq!(out_of_range.result, TargetingResult::OutOfRange);
    assert!(out_of_range.line_of_fire.clear);
    assert_eq!(out_of_range.line_of_fire.blocking_obstacle_id, None);
}

fn dense_positions(count: usize, x_start_mm: i32, y_start_mm: i32) -> Vec<WorldPosition> {
    (0..count)
        .map(|index| WorldPosition {
            x_mm: x_start_mm + i32::try_from(index % 16).unwrap_or(0) * 750,
            y_mm: y_start_mm + i32::try_from(index / 16).unwrap_or(0) * 750,
        })
        .collect()
}

#[test]
fn cover_combat_perf_smoke_counts_dense_targeting_queries() {
    let cover_map = CoverCombatMap::from_map_data(&sample_map()).expect("cover map imports");
    let mut attackers = dense_positions(32, 10_000, 10_000);
    attackers.extend(dense_positions(32, 10_000, 50_000));
    let mut targets = dense_positions(64, 18_500, 18_500);
    targets.extend(dense_positions(16, 88_000, 50_000));
    targets.extend(dense_positions(16, 88_000, 88_000));

    let run = cover_map.run_dense_targeting_smoke(&attackers, &targets, 100_000);

    assert_eq!(run.query_count, 64 * 96);
    assert!(run.in_range_clear > 0);
    assert!(run.in_range_target_in_cover > 0);
    assert!(run.blocked_by_obstacle > 0);
    assert!(run.out_of_range > 0);
    assert_eq!(
        run.query_count,
        run.in_range_clear
            + run.in_range_target_in_cover
            + run.blocked_by_obstacle
            + run.out_of_range
    );
    assert_eq!(run.claim_scope, "informational_contract_only");
}

#[test]
fn cover_release_and_lookup_follow_occupancy() {
    let mut cover_map = CoverCombatMap::from_map_data(&sample_map()).expect("cover map imports");
    assert_eq!(cover_map.release_cover_slot("cover_west", EntityId(5)), Ok(false));
    assert_eq!(cover_map.claim_cover_slot("cover_west", EntityId(9)), Ok(()));
    assert_eq!(cover_map.claim_cover_slot("cover_west", EntityId(3)), Ok(()));
    assert_eq!(
        cover_map.occupancy("cover_west").map(|o| o.occupants.clone()),
        Some(vec![EntityId(3), EntityId(9)])
    );
    assert_eq!(cover_map.occupancy("cover_west").map(|o| o.slot_capacity), Some(2));
    assert_eq!(cover_map.release_cover_slot("cover_west", EntityId(3)), Ok(true));
    assert_eq!(cover_map.release_cover_slot("nowhere", EntityId(3)), Err(CoverError::UnknownCoverId));
    assert!(cover_map.occupancy("nowhere").is_none());
    assert!(cover_map.obstacle_at_point(MapPoint { x_mm: 0, y_mm: 0 }).is_none());
}

#[test]
fn volume_segment_test_covers_ends_edges_and_misses() {
    let volume = AxisAlignedVolume::from_shape(&shape("box", MapShapeKind::Obstacle, 0, 0));
    assert_eq!(volume.min, MapPoint { x_mm: -1000, y_mm: -1000 });
    assert_eq!(volume.max, MapPoint { x_mm: 1000, y_mm: 1000 });
    assert!(volume.intersects_segment(MapPoint { x_mm: 0, y_mm: 0 }, MapPoint { x_mm: 5000, y_mm: 5000 }));
    assert!(volume.intersects_segment(MapPoint { x_mm: -5000, y_mm: 0 }, MapPoint { x_mm: 5000, y_mm: 0 }));
    assert!(volume.intersects_segment(MapPoint { x_mm: -5000, y_mm: 1000 }, MapPoint { x_mm: 5000, y_mm: 1000 }));
    assert!(!volume.intersects_segment(MapPoint { x_mm: -5000, y_mm: 1001 }, MapPoint { x_mm: 5000, y_mm: 1001 }));
    let wide = CoverObject::from_shape(&MapShape {
        half_extents_mm: MapPoint { x_mm: 2600, y_mm: 100 },
        ..shape("wide", MapShapeKind::Cover, 0, 0)
    });
    assert_eq!(wide.slot_capacity, 5);
}
