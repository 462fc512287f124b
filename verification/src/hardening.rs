use vstd::prelude::*;

use crate::protocol::{spec_decode, MessageType, PacketDecodeError, PacketHeader, PROTOCOL_HEADER_LEN};

verus! {

pub const MAX_PACKET_BYTES: usize = 1200;

pub const MAX_PAYLOAD_BYTES: usize = MAX_PACKET_BYTES - PROTOCOL_HEADER_LEN;

pub const MAX_CLIENT_COMMAND_BATCH_BYTES: usize = 1024;

pub const MAX_REDACTED_DIAGNOSTIC_BYTES: usize = 128;

#[derive(Debug, Clone, Copy, PartialEq, Eq, Structural)]
pub struct ProtocolHardeningLimits {
    pub max_packet_bytes: usize,
    pub max_payload_bytes: usize,
    pub max_client_command_batch_bytes: usize,
    pub max_redacted_diagnostic_bytes: usize,
}

impl Default for ProtocolHardeningLimits {
    fn default() -> (r: Self)
        ensures
            r == (ProtocolHardeningLimits {
                max_packet_bytes: 1200,
                max_payload_bytes: 1152,
                max_client_command_batch_bytes: 1024,
                max_redacted_diagnostic_bytes: 128,
            }),
    {
        Self {
            max_packet_bytes: MAX_PACKET_BYTES,
            max_payload_bytes: MAX_PAYLOAD_BYTES,
            max_client_command_batch_bytes: MAX_CLIENT_COMMAND_BATCH_BYTES,
            max_redacted_diagnostic_bytes: MAX_REDACTED_DIAGNOSTIC_BYTES,
        }
    }
}

#[derive(Debug, Clone, Copy, PartialEq, Eq, Structural)]
pub enum ProtocolRejectReason {
    PacketTooLarge,
    PayloadTooLarge,
    ClientCommandBatchTooLarge,
    VersionMismatch,
    MalformedHeader,
    MalformedPayload,
    AuthMissing,
    AuthRejected,
    StaleCommand,
    ReplayedCommand,
}

impl ProtocolRejectReason {
    pub fn as_str(self) -> (r: &'static str)
        ensures
            r@ == (match self {
                ProtocolRejectReason::PacketTooLarge => "packet_too_large"@,
                ProtocolRejectReason::PayloadTooLarge => "payload_too_large"@,
                ProtocolRejectReason::ClientCommandBatchTooLarge => "client_command_batch_too_large"@,
                ProtocolRejectReason::VersionMismatch => "version_mismatch"@,
                ProtocolRejectReason::MalformedHeader => "malformed_header"@,
                ProtocolRejectReason::MalformedPayload => "malformed_payload"@,
                ProtocolRejectReason::AuthMissing => "auth_missing"@,
                ProtocolRejectReason::AuthRejected => "auth_rejected"@,
                ProtocolRejectReason::StaleCommand => "stale_command"@,
                ProtocolRejectReason::ReplayedCommand => "replayed_command"@,
            }),
    {
        match self {
            Self::PacketTooLarge => "packet_too_large",
            Self::PayloadTooLarge => "payload_too_large",
            Self::ClientCommandBatchTooLarge => "client_command_batch_too_large",
            Self::VersionMismatch => "version_mismatch",
            Self::MalformedHeader => "malformed_header",
            Self::MalformedPayload => "malformed_payload",
            Self::AuthMissing => "auth_missing",
            Self::AuthRejected => "auth_rejected",
            Self::StaleCommand => "stale_command",
            Self::ReplayedCommand => "replayed_command",
        }
    }
}

#[derive(Debug, Clone, Copy, PartialEq, Eq, Structural)]
pub enum ProtocolHardeningAction {
    Accept,
    RejectNoStateMutation,
    AckDuplicateNoStateMutation,
    Disconnect,
}

impl ProtocolHardeningAction {
    pub fn as_str(self) -> (r: &'static str)
        ensures
            r@ == (match self {
                ProtocolHardeningAction::Accept => "accept"@,
                ProtocolHardeningAction::RejectNoStateMutation => "reject_no_state_mutation"@,
                ProtocolHardeningAction::AckDuplicateNoStateMutation => "ack_duplicate_no_state_mutation"@,
                ProtocolHardeningAction::Disconnect => "disconnect"@,
            }),
    {
        match self {
            Self::Accept => "accept",
            Self::RejectNoStateMutation => "reject_no_state_mutation",
            Self::AckDuplicateNoStateMutation => "ack_duplicate_no_state_mutation",
            Self::Disconnect => "disconnect",
        }
    }
}

#[derive(Debug, Clone, Copy, PartialEq, Eq, Structural)]
pub struct ProtocolHardeningDecision {
    pub action: ProtocolHardeningAction,
    pub reason: Option<ProtocolRejectReason>,
    pub mutate_authoritative_state: bool,
    pub redacted_diagnostics_only: bool,
}

pub open spec fn spec_accept() -> ProtocolHardeningDecision {
    ProtocolHardeningDecision {
        action: ProtocolHardeningAction::Accept,
        reason: None,
        mutate_authoritative_state: true,
        redacted_diagnostics_only: false,
    }
}

pub open spec fn spec_reject(reason: ProtocolRejectReason) -> ProtocolHardeningDecision {
    ProtocolHardeningDecision {
        action: ProtocolHardeningAction::RejectNoStateMutation,
        reason: Some(reason),
        mutate_authoritative_state: false,
        redacted_diagnostics_only: true,
    }
}

pub open spec fn spec_duplicate(reason: ProtocolRejectReason) -> ProtocolHardeningDecision {
    ProtocolHardeningDecision {
        action: ProtocolHardeningAction::AckDuplicateNoStateMutation,
        reason: Some(reason),
        mutate_authoritative_state: false,
        redacted_diagnostics_only: true,
    }
}

pub open spec fn spec_disconnect(reason: ProtocolRejectReason) -> ProtocolHardeningDecision {
    ProtocolHardeningDecision {
        action: ProtocolHardeningAction::Disconnect,
        reason: Some(reason),
        mutate_authoritative_state: false,
        redacted_diagnostics_only: true,
    }
}

impl ProtocolHardeningDecision {
    pub fn accept() -> (r: Self)
        ensures
            r == spec_accept(),
    {
        Self {
            action: ProtocolHardeningAction::Accept,
            reason: None,
            mutate_authoritative_state: true,
            redacted_diagnostics_only: false,
        }
    }

    pub fn reject(reason: ProtocolRejectReason) -> (r: Self)
        ensures
            r == spec_reject(reason),
    {
        Self {
            action: ProtocolHardeningAction::RejectNoStateMutation,
            reason: Some(reason),
            mutate_authoritative_state: false,
            redacted_diagnostics_only: true,
        }
    }

    pub fn duplicate(reason: ProtocolRejectReason) -> (r: Self)
        ensures
            r == spec_duplicate(reason),
    {
        Self {
            action: ProtocolHardeningAction::AckDuplicateNoStateMutation,
            reason: Some(reason),
            mutate_authoritative_state: false,
            redacted_diagnostics_only: true,
        }
    }

    pub fn disconnect(reason: ProtocolRejectReason) -> (r: Self)
        ensures
            r == spec_disconnect(reason),
    {
        Self {
            action: ProtocolHardeningAction::Disconnect,
            reason: Some(reason),
            mutate_authoritative_state: false,
            redacted_diagnostics_only: true,
        }
    }
}

#[derive(Debug, Clone, Copy, PartialEq, Eq, Structural)]
pub enum AuthCheckState {
    LocalMockAccepted,
    MissingProof,
    RejectedProof,
}

#[derive(Debug, Clone, Copy, PartialEq, Eq, Structural)]
pub enum CommandFreshness {
    Fresh,
    Stale,
    Replayed,
}

/// The payload limits applied to a decoded header.
pub open spec fn spec_header_limits(header: PacketHeader, limits: ProtocolHardeningLimits) -> ProtocolHardeningDecision {
    if header.payload_len > limits.max_payload_bytes {
        spec_reject(ProtocolRejectReason::PayloadTooLarge)
    } else if header.message_type == MessageType::ClientCommandBatch && header.payload_len
        > limits.max_client_command_batch_bytes {
        spec_reject(ProtocolRejectReason::ClientCommandBatchTooLarge)
    } else {
        spec_accept()
    }
}

/// The decision for a raw packet: oversized packets disconnect before decoding, decode
/// failures reject (a version mismatch by name), decoded headers go through the payload limits.
pub open spec fn spec_packet_bounds(packet: Seq<u8>, limits: ProtocolHardeningLimits) -> ProtocolHardeningDecision {
    if packet.len() > limits.max_packet_bytes {
        spec_disconnect(ProtocolRejectReason::PacketTooLarge)
    } else {
        match spec_decode(packet) {
            Ok(header) => spec_header_limits(header, limits),
            Err(PacketDecodeError::UnsupportedProtocol(_)) => spec_reject(ProtocolRejectReason::VersionMismatch),
            Err(_) => spec_reject(ProtocolRejectReason::MalformedHeader),
        }
    }
}

pub fn validate_packet_bounds(packet: &[u8], limits: ProtocolHardeningLimits) -> (r: ProtocolHardeningDecision)
    ensures
        r == spec_packet_bounds(packet@, limits),
{
    if packet.len() > limits.max_packet_bytes {
        return ProtocolHardeningDecision::disconnect(ProtocolRejectReason::PacketTooLarge);
    }
    match PacketHeader::decode(packet) {
        Ok(header) => validate_header_payload_limits(header, limits),
        Err(PacketDecodeError::UnsupportedProtocol(_)) => ProtocolHardeningDecision::reject(
            ProtocolRejectReason::VersionMismatch,
        ),
        Err(_) => ProtocolHardeningDecision::reject(ProtocolRejectReason::MalformedHeader),
    }
}

pub fn validate_header_payload_limits(header: PacketHeader, limits: ProtocolHardeningLimits) -> (r:
    ProtocolHardeningDecision)
    ensures
        r == spec_header_limits(header, limits),
{
    if header.payload_len as usize > limits.max_payload_bytes {
        return ProtocolHardeningDecision::reject(ProtocolRejectReason::PayloadTooLarge);
    }
    if header.message_type == MessageType::ClientCommandBatch && header.payload_len as usize
        > limits.max_client_command_batch_bytes {
        return ProtocolHardeningDecision::reject(ProtocolRejectReason::ClientCommandBatchTooLarge);
    }
    ProtocolHardeningDecision::accept()
}

pub fn evaluate_auth_state(auth: AuthCheckState) -> (r: ProtocolHardeningDecision)
    ensures
        r == (match auth {
            AuthCheckState::LocalMockAccepted => spec_accept(),
            AuthCheckState::MissingProof => spec_reject(ProtocolRejectReason::AuthMissing),
            AuthCheckState::RejectedProof => spec_disconnect(ProtocolRejectReason::AuthRejected),
        }),
{
    match auth {
        AuthCheckState::LocalMockAccepted => ProtocolHardeningDecision::accept(),
        AuthCheckState::MissingProof => ProtocolHardeningDecision::reject(ProtocolRejectReason::AuthMissing),
        AuthCheckState::RejectedProof => ProtocolHardeningDecision::disconnect(ProtocolRejectReason::AuthRejected),
    }
}

pub fn evaluate_command_freshness(freshness: CommandFreshness) -> (r: ProtocolHardeningDecision)
    ensures
        r == (match freshness {
            CommandFreshness::Fresh => spec_accept(),
            CommandFreshness::Stale => spec_duplicate(ProtocolRejectReason::StaleCommand),
            CommandFreshness::Replayed => spec_duplicate(ProtocolRejectReason::ReplayedCommand),
        }),
{
    match freshness {
        CommandFreshness::Fresh => ProtocolHardeningDecision::accept(),
        CommandFreshness::Stale => ProtocolHardeningDecision::duplicate(ProtocolRejectReason::StaleCommand),
        CommandFreshness::Replayed => ProtocolHardeningDecision::duplicate(ProtocolRejectReason::ReplayedCommand),
    }
}

/// A decision that is not an acceptance never mutates authoritative state and carries
/// redacted diagnostics only, for every packet and limits.
pub proof fn law_non_accept_is_safe(packet: Seq<u8>, limits: ProtocolHardeningLimits)
    ensures
        ({
            let d = spec_packet_bounds(packet, limits);
            d.action != ProtocolHardeningAction::Accept ==> !d.mutate_authoritative_state
                && d.redacted_diagnostics_only && d.reason is Some
        }),
{
}

/// A packet shorter than a header is always rejected as a malformed header.
pub proof fn law_truncated_header_is_malformed(packet: Seq<u8>, limits: ProtocolHardeningLimits)
    requires
        packet.len() < PROTOCOL_HEADER_LEN,
        packet.len() <= limits.max_packet_bytes,
    ensures
        spec_packet_bounds(packet, limits) == spec_reject(ProtocolRejectReason::MalformedHeader),
{
}

/// A packet whose declared payload length differs from its actual payload never gets through.
pub proof fn law_payload_mismatch_never_accepted(packet: Seq<u8>, limits: ProtocolHardeningLimits)
    requires
        spec_decode(packet) matches Err(PacketDecodeError::PayloadLenMismatch { .. }),
    ensures
        spec_packet_bounds(packet, limits).action != ProtocolHardeningAction::Accept,
{
}

} // verus!
