use millions_server::reconnect::{DEFAULT_RECONNECT_GRACE_TICKS, RebindResult, SessionConnectionState, SessionRebindState, SnapshotResumeAction};
use millions_server::simulation::{PlayerSessionId, Tick};
use millions_server::transport::{ConnectionId};

const SESSION: PlayerSessionId = PlayerSessionId(42);
const OLD_CONNECTION: ConnectionId = ConnectionId(100);
const NEW_CONNECTION: ConnectionId = ConnectionId(200);

#[test]
fn session_starts_connected_with_grace_deadline() {
    let state = SessionRebindState::connected(SESSION, OLD_CONNECTION, Tick(10), 5);

    assert_eq!(state.player_session_id, SESSION);
    assert_eq!(state.active_connection_id, OLD_CONNECTION);
    assert_eq!(state.state, SessionConnectionState::Connected);
    assert_eq!(state.grace_expires_at_tick, Tick(15));
    assert!(state.accepts_connection(OLD_CONNECTION));
}

#[test]
fn rebind_changes_connection_inside_grace_period() {
    let mut state = SessionRebindState::connected(
        SESSION,
        OLD_CONNECTION,
        Tick(10),
        DEFAULT_RECONNECT_GRACE_TICKS,
    );
    state.enter_grace_period(Tick(20), 5);

    let result = state.rebind(NEW_CONNECTION, Tick(24));

    assert_eq!(
        result,
        RebindResult::Rebound {
            previous_connection_id: OLD_CONNECTION,
        }
    );
    assert_eq!(state.state, SessionConnectionState::Connected);
    assert_eq!(state.previous_connection_id, Some(OLD_CONNECTION));
    assert!(state.accepts_connection(NEW_CONNECTION));
    assert!(!state.accepts_connection(OLD_CONNECTION));
    assert!(state.needs_full_snapshot(NEW_CONNECTION));
}

#[test]
fn full_snapshot_clears_reconnect_delta_resume_gate() {
    let mut state = SessionRebindState::connected(SESSION, OLD_CONNECTION, Tick(10), 5);
    state.enter_grace_period(Tick(20), 5);
    assert_eq!(
        state.rebind(NEW_CONNECTION, Tick(24)),
        RebindResult::Rebound {
            previous_connection_id: OLD_CONNECTION,
        }
    );

    assert_eq!(
        state.snapshot_resume_action(NEW_CONNECTION),
        Some(SnapshotResumeAction::SendFullSnapshot)
    );
    assert_eq!(
        state.mark_full_snapshot_sent(NEW_CONNECTION, 900),
        Some(SnapshotResumeAction::ResumeDeltaStream {
            baseline_snapshot_id: 900,
        })
    );
    assert_eq!(state.snapshot_resume_action(NEW_CONNECTION), None);
    assert!(!state.needs_full_snapshot(NEW_CONNECTION));
}

#[test]
fn rebind_is_rejected_after_grace_expires() {
    let mut state = SessionRebindState::connected(SESSION, OLD_CONNECTION, Tick(10), 5);
    state.enter_grace_period(Tick(20), 5);

    let result = state.rebind(NEW_CONNECTION, Tick(26));

    assert_eq!(result, RebindResult::GraceExpired);
    assert_eq!(state.state, SessionConnectionState::Expired);
    assert_eq!(state.active_connection_id, OLD_CONNECTION);
    assert!(!state.accepts_connection(NEW_CONNECTION));
}

#[test]
fn new_connection_is_not_accepted_before_grace_period() {
    let mut state = SessionRebindState::connected(SESSION, OLD_CONNECTION, Tick(10), 5);

    let result = state.rebind(NEW_CONNECTION, Tick(11));

    assert_eq!(result, RebindResult::NotInGracePeriod);
    assert!(state.accepts_connection(OLD_CONNECTION));
    assert!(!state.accepts_connection(NEW_CONNECTION));
}
