use millions_server::game_core::{BASIC_SQUAD_ENTITY_KIND, GCORE_SCHEMA, GCoreCommandError, GCoreState, HQ_ENTITY_KIND, MoveIntent, PlayerStart};
use millions_server::map_data::{MapBounds};
use millions_server::reliability::{CommandId};
use millions_server::simulation::{EntityId, PlayerSessionId, Tick, WorldPosition};

fn bounds() -> MapBounds {
    MapBounds {
        min_x: 0,
        min_y: 0,
        max_x: 100_000,
        max_y: 100_000,
    }
}

fn player_one_start() -> PlayerStart {
    PlayerStart {
        session_id: PlayerSessionId(101),
        faction_id: 1,
        hq_position: WorldPosition {
            x_mm: 10_000,
            y_mm: 10_000,
        },
        squad_spawn_position: WorldPosition {
            x_mm: 12_000,
            y_mm: 12_000,
        },
    }
}

fn player_two_start() -> PlayerStart {
    PlayerStart {
        session_id: PlayerSessionId(202),
        faction_id: 2,
        hq_position: WorldPosition {
            x_mm: 90_000,
            y_mm: 90_000,
        },
        squad_spawn_position: WorldPosition {
            x_mm: 88_000,
            y_mm: 88_000,
        },
    }
}

#[test]
fn gcore_adds_authoritative_player_hqs_and_squads() {
    let mut state = GCoreState::new(bounds());

    let hq_one = state
        .add_player_start(player_one_start())
        .expect("player one hq accepted");
    let hq_two = state
        .add_player_start(player_two_start())
        .expect("player two hq accepted");
    let squad_one = state
        .spawn_basic_squad(PlayerSessionId(101))
        .expect("player one squad accepted");
    let squad_two = state
        .spawn_basic_squad(PlayerSessionId(202))
        .expect("player two squad accepted");

    assert_eq!(GCORE_SCHEMA, "millions_gcore_v0");
    assert_eq!(hq_one, EntityId(1));
    assert_eq!(hq_two, EntityId(2));
    assert_eq!(squad_one.squad_id, EntityId(3));
    assert_eq!(
        squad_one.member_entity_ids,
        [EntityId(4), EntityId(5), EntityId(6), EntityId(7)]
    );
    assert_eq!(squad_two.squad_id, EntityId(8));
    assert_eq!(state.player_count(), 2);
    assert_eq!(state.squad_count(), 2);
}

#[test]
fn gcore_move_intent_is_server_validated_and_idempotent() {
    let mut state = GCoreState::new(bounds());
    state
        .add_player_start(player_one_start())
        .expect("player start accepted");
    let squad = state
        .spawn_basic_squad(PlayerSessionId(101))
        .expect("squad accepted");
    let intent = MoveIntent {
        command_id: CommandId(42),
        squad_id: squad.squad_id,
        target_position: WorldPosition {
            x_mm: 50_000,
            y_mm: 50_000,
        },
    };

    let accepted = state
        .apply_move_intent(PlayerSessionId(101), intent)
        .expect("move intent accepted");
    assert_eq!(accepted.command_id, CommandId(42));
    assert_eq!(
        state.squad(squad.squad_id).and_then(|s| s.target_position),
        Some(WorldPosition {
            x_mm: 50_000,
            y_mm: 50_000,
        })
    );
    assert_eq!(
        state.apply_move_intent(PlayerSessionId(101), intent),
        Err(GCoreCommandError::DuplicateCommand)
    );
}

#[test]
fn gcore_rejects_wrong_owner_and_out_of_bounds_moves() {
    let mut state = GCoreState::new(bounds());
    state
        .add_player_start(player_one_start())
        .expect("player one accepted");
    state
        .add_player_start(player_two_start())
        .expect("player two accepted");
    let squad = state
        .spawn_basic_squad(PlayerSessionId(101))
        .expect("squad accepted");

    assert_eq!(
        state.apply_move_intent(
            PlayerSessionId(202),
            MoveIntent {
                command_id: CommandId(7),
                squad_id: squad.squad_id,
                target_position: WorldPosition {
                    x_mm: 20_000,
                    y_mm: 20_000,
                },
            },
        ),
        Err(GCoreCommandError::WrongOwner)
    );
    assert_eq!(
        state.apply_move_intent(
            PlayerSessionId(101),
            MoveIntent {
                command_id: CommandId(8),
                squad_id: squad.squad_id,
                target_position: WorldPosition {
                    x_mm: 120_000,
                    y_mm: 20_000,
                },
            },
        ),
        Err(GCoreCommandError::PositionOutOfBounds)
    );
}

#[test]
fn gcore_full_snapshot_contains_hqs_and_squad_members() {
    let mut state = GCoreState::new(bounds());
    state
        .add_player_start(player_one_start())
        .expect("player one accepted");
    state
        .add_player_start(player_two_start())
        .expect("player two accepted");
    state
        .spawn_basic_squad(PlayerSessionId(101))
        .expect("player one squad accepted");
    state
        .spawn_basic_squad(PlayerSessionId(202))
        .expect("player two squad accepted");

    let snapshot = state.build_full_snapshot(500, Tick(20));

    assert_eq!(snapshot.snapshot_id, 500);
    assert_eq!(snapshot.tick, Tick(20));
    assert_eq!(snapshot.entities.len(), 10);
    assert_eq!(snapshot.entities[0].entity_kind, HQ_ENTITY_KIND);
    assert_eq!(snapshot.entities[2].entity_kind, BASIC_SQUAD_ENTITY_KIND);
    assert_eq!(snapshot.entities[2].position.x_mm, 11_500);
    assert!(snapshot.removed_entities.is_empty());
}

#[test]
fn gcore_rejects_second_start_missing_player_and_second_squad() {
    let mut state = GCoreState::new(bounds());
    assert_eq!(state.spawn_basic_squad(PlayerSessionId(101)), Err(GCoreCommandError::PlayerMissing));
    state.add_player_start(player_one_start()).expect("player one accepted");
    assert_eq!(
        state.add_player_start(player_one_start()),
        Err(GCoreCommandError::PlayerAlreadyStarted)
    );
    let mut outside = player_two_start();
    outside.squad_spawn_position.y_mm = -1;
    assert_eq!(state.add_player_start(outside), Err(GCoreCommandError::PositionOutOfBounds));
    state.spawn_basic_squad(PlayerSessionId(101)).expect("squad accepted");
    assert_eq!(
        state.spawn_basic_squad(PlayerSessionId(101)),
        Err(GCoreCommandError::SquadAlreadySpawned)
    );
    assert_eq!(
        state.apply_move_intent(
            PlayerSessionId(101),
            MoveIntent {
                command_id: CommandId(1),
                squad_id: EntityId(99),
                target_position: WorldPosition { x_mm: 1, y_mm: 1 },
            },
        ),
        Err(GCoreCommandError::SquadMissing)
    );
    assert_eq!(state.player_count(), 1);
    assert_eq!(state.squad_count(), 1);
    assert_eq!(state.bounds(), bounds());
}

#[test]
fn gcore_snapshot_orders_hqs_by_session_and_offsets_members() {
    let mut state = GCoreState::new(bounds());
    state.add_player_start(player_two_start()).expect("player two accepted");
    state.add_player_start(player_one_start()).expect("player one accepted");
    state.spawn_basic_squad(PlayerSessionId(202)).expect("player two squad");
    let entities = state.snapshot_entities();
    assert_eq!(entities.len(), 6);
    assert_eq!(entities[0].entity_id, EntityId(2));
    assert_eq!(entities[0].faction_id, 1);
    assert_eq!(entities[1].entity_id, EntityId(1));
    assert_eq!(entities[2].entity_id, EntityId(4));
    assert_eq!(entities[2].faction_id, 2);
    assert_eq!(entities[2].position, WorldPosition { x_mm: 87_500, y_mm: 87_500 });
    assert_eq!(entities[3].position, WorldPosition { x_mm: 88_500, y_mm: 87_500 });
    assert_eq!(entities[4].position, WorldPosition { x_mm: 87_500, y_mm: 88_500 });
    assert_eq!(entities[5].position, WorldPosition { x_mm: 88_500, y_mm: 88_500 });
}
