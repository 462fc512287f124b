use vstd::prelude::*;

use crate::simulation::PlayerSessionId;

verus! {

#[derive(Debug, Clone, Copy, PartialEq, Eq, Structural)]
pub struct ConnectionId(pub u64);

#[derive(Debug, Clone, Copy, PartialEq, Eq, Structural)]
pub enum TransportKind {
    Loopback,
    Udp,
    MockSteam,
}

#[derive(Debug, Clone, Copy, PartialEq, Eq, Structural)]
pub struct TransportEnvelope {
    pub connection_id: ConnectionId,
    pub session_id: Option<PlayerSessionId>,
    pub kind: TransportKind,
}

} // verus!
