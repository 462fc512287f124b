use millions_server::protocol::synthetic_session_id;
use millions_server::simulation::{PlayerSessionId};
use millions_server::steam_bridge::{LOCAL_DIRECT_SERVER_MODE, LOCAL_MOCK_IDENTITY_MODE, STEAM_BRIDGE_PROTOCOL, STEAM_BRIDGE_SCHEMA, SteamBridgeError, SteamBridgeHandoff, accept_local_mock_handoff, validate_local_mock_handoff};
use millions_server::transport::{ConnectionId, TransportKind};

fn valid_handoff() -> SteamBridgeHandoff {
    SteamBridgeHandoff {
        schema: STEAM_BRIDGE_SCHEMA.to_string(),
        identity_mode: LOCAL_MOCK_IDENTITY_MODE.to_string(),
        lobby_id: "local-abc123".to_string(),
        lobby_state: "ready".to_string(),
        protocol: STEAM_BRIDGE_PROTOCOL.to_string(),
        server_mode: LOCAL_DIRECT_SERVER_MODE.to_string(),
        server_endpoint: "127.0.0.1:7777".to_string(),
        endpoint_epoch: 1,
        ready_epoch: 1,
        build_id: "local-uncommitted".to_string(),
        player_display_name: "Player 1".to_string(),
        player_session_id: "local-session-local-abc123-player-1".to_string(),
    }
}

#[test]
fn local_mock_handoff_accepts_redacted_facade_shape() {
    let handoff = valid_handoff();
    let accepted = accept_local_mock_handoff(&handoff, ConnectionId(77))
        .expect("local mock handoff accepts");

    assert_eq!(accepted.connection_id, ConnectionId(77));
    assert_ne!(accepted.player_session_id, PlayerSessionId(0));
    assert_eq!(accepted.transport.kind, TransportKind::MockSteam);
    assert_eq!(
        accepted.transport.session_id,
        Some(accepted.player_session_id)
    );
}

#[test]
fn local_mock_handoff_rejects_live_or_unready_shapes() {
    let mut handoff = valid_handoff();
    handoff.identity_mode = "steam".to_string();
    assert_eq!(
        validate_local_mock_handoff(&handoff),
        Err(SteamBridgeError::UnsupportedIdentityMode)
    );

    handoff = valid_handoff();
    handoff.lobby_state = "ready_pending".to_string();
    assert_eq!(
        validate_local_mock_handoff(&handoff),
        Err(SteamBridgeError::LobbyNotReady)
    );

    handoff = valid_handoff();
    handoff.endpoint_epoch = 0;
    assert_eq!(
        validate_local_mock_handoff(&handoff),
        Err(SteamBridgeError::NonMonotonicEpoch)
    );
}

#[test]
fn local_mock_handoff_checks_each_field_in_order() {
    let mut handoff = valid_handoff();
    handoff.schema = "steam_bridge_v1".to_string();
    handoff.protocol = String::new();
    assert_eq!(validate_local_mock_handoff(&handoff), Err(SteamBridgeError::BadSchema));

    handoff = valid_handoff();
    handoff.lobby_state = "launching".to_string();
    assert_eq!(validate_local_mock_handoff(&handoff), Ok(()));

    handoff.protocol = "protocol_v1".to_string();
    assert_eq!(validate_local_mock_handoff(&handoff), Err(SteamBridgeError::BadProtocol));

    handoff = valid_handoff();
    handoff.server_mode = "relay".to_string();
    assert_eq!(validate_local_mock_handoff(&handoff), Err(SteamBridgeError::UnsupportedServerMode));

    handoff = valid_handoff();
    handoff.server_endpoint = "  ".to_string();
    assert_eq!(validate_local_mock_handoff(&handoff), Err(SteamBridgeError::EmptyEndpoint));

    handoff = valid_handoff();
    handoff.player_session_id = "\n".to_string();
    assert_eq!(validate_local_mock_handoff(&handoff), Err(SteamBridgeError::EmptyPlayerSession));
    assert_eq!(
        accept_local_mock_handoff(&handoff, ConnectionId(1)),
        Err(SteamBridgeError::EmptyPlayerSession)
    );
}

#[test]
fn local_mock_handoff_session_id_is_synthetic_id_of_lobby_and_player() {
    let handoff = valid_handoff();
    let accepted = accept_local_mock_handoff(&handoff, ConnectionId(5)).expect("accepted");
    assert_eq!(
        accepted.player_session_id,
        PlayerSessionId(synthetic_session_id("local-abc123:Player 1"))
    );
    assert_eq!(accepted.transport.connection_id, ConnectionId(5));
}
