use vstd::prelude::*;

use crate::map_data::{blank_text, is_blank, same_text};
use crate::protocol::{fnv1a_bytes, synthetic_session_id, FNV_OFFSET_BASIS};
use crate::simulation::PlayerSessionId;
use crate::transport::{ConnectionId, TransportEnvelope, TransportKind};

verus! {

pub const STEAM_BRIDGE_SCHEMA: &'static str = "steam_bridge_v0";

pub const STEAM_BRIDGE_PROTOCOL: &'static str = "protocol_v0";

pub const LOCAL_MOCK_IDENTITY_MODE: &'static str = "local_mock";

pub const LOCAL_DIRECT_SERVER_MODE: &'static str = "local_direct";

pub const LOBBY_STATE_READY: &'static str = "ready";

pub const LOBBY_STATE_LAUNCHING: &'static str = "launching";

#[derive(Debug, Clone, PartialEq, Eq)]
pub struct SteamBridgeHandoff {
    pub schema: String,
    pub identity_mode: String,
    pub lobby_id: String,
    pub lobby_state: String,
    pub protocol: String,
    pub server_mode: String,
    pub server_endpoint: String,
    pub endpoint_epoch: u64,
    pub ready_epoch: u64,
    pub build_id: String,
    pub player_display_name: String,
    pub player_session_id: String,
}

#[derive(Debug, Clone, Copy, PartialEq, Eq, Structural)]
pub enum SteamBridgeError {
    BadSchema,
    UnsupportedIdentityMode,
    LobbyNotReady,
    BadProtocol,
    UnsupportedServerMode,
    EmptyEndpoint,
    EmptyPlayerSession,
    NonMonotonicEpoch,
}

#[derive(Debug, Clone, Copy, PartialEq, Eq, Structural)]
pub struct AcceptedSteamBridgeSession {
    pub connection_id: ConnectionId,
    pub player_session_id: PlayerSessionId,
    pub transport: TransportEnvelope,
}

/// The outcome of checking a handoff, check by check in the order they are made.
pub open spec fn handoff_validation(handoff: SteamBridgeHandoff) -> Result<(), SteamBridgeError> {
    if handoff.schema@ != STEAM_BRIDGE_SCHEMA@ {
        Err(SteamBridgeError::BadSchema)
    } else if handoff.identity_mode@ != LOCAL_MOCK_IDENTITY_MODE@ {
        Err(SteamBridgeError::UnsupportedIdentityMode)
    } else if handoff.lobby_state@ != LOBBY_STATE_READY@ && handoff.lobby_state@ != LOBBY_STATE_LAUNCHING@ {
        Err(SteamBridgeError::LobbyNotReady)
    } else if handoff.protocol@ != STEAM_BRIDGE_PROTOCOL@ {
        Err(SteamBridgeError::BadProtocol)
    } else if handoff.server_mode@ != LOCAL_DIRECT_SERVER_MODE@ {
        Err(SteamBridgeError::UnsupportedServerMode)
    } else if is_blank(handoff.server_endpoint@) {
        Err(SteamBridgeError::EmptyEndpoint)
    } else if is_blank(handoff.player_session_id@) {
        Err(SteamBridgeError::EmptyPlayerSession)
    } else if handoff.endpoint_epoch == 0 || handoff.ready_epoch == 0 {
        Err(SteamBridgeError::NonMonotonicEpoch)
    } else {
        Ok(())
    }
}

/// The session id of an accepted handoff: the synthetic id of `lobby:player`.
pub open spec fn handoff_session_id(handoff: SteamBridgeHandoff) -> PlayerSessionId {
    PlayerSessionId(
        fnv1a_bytes(
            FNV_OFFSET_BASIS,
            vstd::utf8::encode_utf8(handoff.lobby_id@ + seq![':'] + handoff.player_display_name@),
        ),
    )
}

/// The two texts joined by one colon.
fn colon_joined(left: &String, right: &String) -> (r: String)
    ensures
        r@ == left@ + seq![':'] + right@,
{
    let mut r = String::from_str(left.as_str());
    r.push(':');
    r.append(right.as_str());
    r
}

/// Accepts a local mock handoff: a valid one becomes a mock Steam transport session whose id
/// is derived from the lobby and the player's display name.
pub fn accept_local_mock_handoff(handoff: &SteamBridgeHandoff, connection_id: ConnectionId) -> (r: Result<
    AcceptedSteamBridgeSession,
    SteamBridgeError,
>)
    ensures
        r == (match handoff_validation(*handoff) {
            Err(e) => Err(e),
            Ok(_) => Ok(
                AcceptedSteamBridgeSession {
                    connection_id,
                    player_session_id: handoff_session_id(*handoff),
                    transport: TransportEnvelope {
                        connection_id,
                        session_id: Some(handoff_session_id(*handoff)),
                        kind: TransportKind::MockSteam,
                    },
                },
            ),
        }),
{
    let checked = validate_local_mock_handoff(handoff);
    if let Err(e) = checked {
        return Err(e);
    }
    let identity = colon_joined(&handoff.lobby_id, &handoff.player_display_name);
    let session_id = PlayerSessionId(synthetic_session_id(identity.as_str()));
    let transport = TransportEnvelope { connection_id, session_id: Some(session_id), kind: TransportKind::MockSteam };
    Ok(AcceptedSteamBridgeSession { connection_id, player_session_id: session_id, transport })
}

/// Checks that a handoff is the local mock shape: schema, identity mode, a ready or
/// launching lobby, protocol, direct server mode, a non-blank endpoint and player session, and
/// both epochs set.
pub fn validate_local_mock_handoff(handoff: &SteamBridgeHandoff) -> (r: Result<(), SteamBridgeError>)
    ensures
        r == handoff_validation(*handoff),
{
    if !same_text(handoff.schema.as_str(), STEAM_BRIDGE_SCHEMA) {
        return Err(SteamBridgeError::BadSchema);
    }
    if !same_text(handoff.identity_mode.as_str(), LOCAL_MOCK_IDENTITY_MODE) {
        return Err(SteamBridgeError::UnsupportedIdentityMode);
    }
    if !same_text(handoff.lobby_state.as_str(), LOBBY_STATE_READY) && !same_text(
        handoff.lobby_state.as_str(),
        LOBBY_STATE_LAUNCHING,
    ) {
        return Err(SteamBridgeError::LobbyNotReady);
    }
    if !same_text(handoff.protocol.as_str(), STEAM_BRIDGE_PROTOCOL) {
        return Err(SteamBridgeError::BadProtocol);
    }
    if !same_text(handoff.server_mode.as_str(), LOCAL_DIRECT_SERVER_MODE) {
        return Err(SteamBridgeError::UnsupportedServerMode);
    }
    if blank_text(handoff.server_endpoint.as_str()) {
        return Err(SteamBridgeError::EmptyEndpoint);
    }
    if blank_text(handoff.player_session_id.as_str()) {
        return Err(SteamBridgeError::EmptyPlayerSession);
    }
    if handoff.endpoint_epoch == 0 || handoff.ready_epoch == 0 {
        return Err(SteamBridgeError::NonMonotonicEpoch);
    }
    Ok(())
}

} // verus!
