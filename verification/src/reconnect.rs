use vstd::prelude::*;

use crate::arith::clamp_u64;
use crate::simulation::{PlayerSessionId, Tick};
use crate::transport::ConnectionId;

verus! {

pub const DEFAULT_RECONNECT_GRACE_TICKS: u64 = 200;

#[derive(Debug, Clone, Copy, PartialEq, Eq, Structural)]
pub enum SessionConnectionState {
    Connected,
    GracePeriod,
    Expired,
}

#[derive(Debug, Clone, Copy, PartialEq, Eq, Structural)]
pub enum RebindResult {
    Rebound { previous_connection_id: ConnectionId },
    SameConnection,
    NotInGracePeriod,
    GraceExpired,
}

#[derive(Debug, Clone, Copy, PartialEq, Eq, Structural)]
pub enum SnapshotResumeAction {
    SendFullSnapshot,
    ResumeDeltaStream { baseline_snapshot_id: u64 },
}

#[derive(Debug, Clone, Copy, PartialEq, Eq, Structural)]
pub struct SessionRebindState {
    pub player_session_id: PlayerSessionId,
    pub active_connection_id: ConnectionId,
    pub previous_connection_id: Option<ConnectionId>,
    pub state: SessionConnectionState,
    pub last_seen_tick: Tick,
    pub grace_expires_at_tick: Tick,
}

/// The session after the expiry check at `now`: a grace period whose deadline has passed expires.
pub open spec fn spec_expired_at(s: SessionRebindState, now: Tick) -> SessionRebindState {
    if s.state == SessionConnectionState::GracePeriod && now.0 > s.grace_expires_at_tick.0 {
        SessionRebindState { state: SessionConnectionState::Expired, ..s }
    } else {
        s
    }
}

/// Whether the session accepts traffic on a connection.
pub open spec fn spec_accepts(s: SessionRebindState, c: ConnectionId) -> bool {
    s.state == SessionConnectionState::Connected && s.active_connection_id == c
}

/// Whether a connection must receive a full snapshot before deltas resume.
pub open spec fn spec_needs_full(s: SessionRebindState, c: ConnectionId) -> bool {
    spec_accepts(s, c) && s.previous_connection_id is Some
}

impl SessionRebindState {
    pub fn connected(
        player_session_id: PlayerSessionId,
        connection_id: ConnectionId,
        now: Tick,
        grace_ticks: u64,
    ) -> (r: Self)
        ensures
            r == (SessionRebindState {
                player_session_id,
                active_connection_id: connection_id,
                previous_connection_id: None,
                state: SessionConnectionState::Connected,
                last_seen_tick: now,
                grace_expires_at_tick: Tick(clamp_u64(now.0 + grace_ticks) as u64),
            }),
    {
        Self {
            player_session_id,
            active_connection_id: connection_id,
            previous_connection_id: None,
            state: SessionConnectionState::Connected,
            last_seen_tick: now,
            grace_expires_at_tick: Tick(now.0.saturating_add(grace_ticks)),
        }
    }

    pub fn enter_grace_period(&mut self, now: Tick, grace_ticks: u64)
        ensures
            *final(self) == (if old(self).state == SessionConnectionState::Expired {
                *old(self)
            } else {
                SessionRebindState {
                    state: SessionConnectionState::GracePeriod,
                    last_seen_tick: now,
                    grace_expires_at_tick: Tick(clamp_u64(now.0 + grace_ticks) as u64),
                    ..*old(self)
                }
            }),
    {
        if self.state == SessionConnectionState::Expired {
            return;
        }
        self.state = SessionConnectionState::GracePeriod;
        self.last_seen_tick = now;
        self.grace_expires_at_tick = Tick(now.0.saturating_add(grace_ticks));
    }

    pub fn rebind(&mut self, next_connection_id: ConnectionId, now: Tick) -> (r: RebindResult)
        ensures
            ({
                let e = spec_expired_at(*old(self), now);
                if e.active_connection_id == next_connection_id {
                    r == RebindResult::SameConnection && *final(self) == e
                } else if e.state == SessionConnectionState::GracePeriod {
                    &&& r == (RebindResult::Rebound { previous_connection_id: e.active_connection_id })
                    &&& *final(self) == (SessionRebindState {
                        previous_connection_id: Some(e.active_connection_id),
                        active_connection_id: next_connection_id,
                        state: SessionConnectionState::Connected,
                        last_seen_tick: now,
                        ..e
                    })
                } else if e.state == SessionConnectionState::Connected {
                    r == RebindResult::NotInGracePeriod && *final(self) == e
                } else {
                    r == RebindResult::GraceExpired && *final(self) == e
                }
            }),
    {
        self.expire_if_due(now);
        if self.active_connection_id == next_connection_id {
            return RebindResult::SameConnection;
        }
        match self.state {
            SessionConnectionState::GracePeriod => {
                let previous_connection_id = self.active_connection_id;
                self.previous_connection_id = Some(previous_connection_id);
                self.active_connection_id = next_connection_id;
                self.state = SessionConnectionState::Connected;
                self.last_seen_tick = now;
                RebindResult::Rebound { previous_connection_id }
            },
            SessionConnectionState::Connected => RebindResult::NotInGracePeriod,
            SessionConnectionState::Expired => RebindResult::GraceExpired,
        }
    }

    pub fn expire_if_due(&mut self, now: Tick)
        ensures
            *final(self) == spec_expired_at(*old(self), now),
    {
        if self.state == SessionConnectionState::GracePeriod && now.0 > self.grace_expires_at_tick.0 {
            self.state = SessionConnectionState::Expired;
        }
    }

    pub fn accepts_connection(&self, connection_id: ConnectionId) -> (r: bool)
        ensures
            r == spec_accepts(*self, connection_id),
    {
        self.state == SessionConnectionState::Connected && self.active_connection_id == connection_id
    }

    pub fn needs_full_snapshot(&self, connection_id: ConnectionId) -> (r: bool)
        ensures
            r == spec_needs_full(*self, connection_id),
    {
        self.accepts_connection(connection_id) && self.previous_connection_id.is_some()
    }

    pub fn snapshot_resume_action(&self, connection_id: ConnectionId) -> (r: Option<SnapshotResumeAction>)
        ensures
            r == (if spec_needs_full(*self, connection_id) {
                Some(SnapshotResumeAction::SendFullSnapshot)
            } else {
                None::<SnapshotResumeAction>
            }),
    {
        if self.needs_full_snapshot(connection_id) {
            Some(SnapshotResumeAction::SendFullSnapshot)
        } else {
            None
        }
    }

    pub fn mark_full_snapshot_sent(&mut self, connection_id: ConnectionId, snapshot_id: u64) -> (r: Option<
        SnapshotResumeAction,
    >)
        ensures
            if spec_needs_full(*old(self), connection_id) {
                &&& r == Some(SnapshotResumeAction::ResumeDeltaStream { baseline_snapshot_id: snapshot_id })
                &&& *final(self) == (SessionRebindState { previous_connection_id: None, ..*old(self) })
            } else {
                r == None::<SnapshotResumeAction> && *final(self) == *old(self)
            },
    {
        if !self.needs_full_snapshot(connection_id) {
            return None;
        }
        self.previous_connection_id = None;
        Some(SnapshotResumeAction::ResumeDeltaStream { baseline_snapshot_id: snapshot_id })
    }
}

/// After a successful rebind, the new connection is the only one accepted, and it owes a
/// full snapshot before deltas resume.
pub proof fn law_rebind_gates_delta_resume(s: SessionRebindState, next: ConnectionId, now: Tick)
    requires
        spec_expired_at(s, now).state == SessionConnectionState::GracePeriod,
        spec_expired_at(s, now).active_connection_id != next,
    ensures
        ({
            let e = spec_expired_at(s, now);
            let t = SessionRebindState {
                previous_connection_id: Some(e.active_connection_id),
                active_connection_id: next,
                state: SessionConnectionState::Connected,
                last_seen_tick: now,
                ..e
            };
            &&& spec_accepts(t, next)
            &&& !spec_accepts(t, s.active_connection_id)
            &&& spec_needs_full(t, next)
            &&& !spec_needs_full(SessionRebindState { previous_connection_id: None, ..t }, next)
        }),
{
}

/// An expired session never accepts a connection and never leaves the expired state.
pub proof fn law_expired_is_final(s: SessionRebindState, now: Tick, c: ConnectionId, grace: u64)
    requires
        s.state == SessionConnectionState::Expired,
    ensures
        spec_expired_at(s, now) == s,
        !spec_accepts(s, c),
{
}

} // verus!
