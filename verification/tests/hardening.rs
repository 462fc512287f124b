use millions_server::hardening::{AuthCheckState, CommandFreshness, MAX_PACKET_BYTES, MAX_PAYLOAD_BYTES, ProtocolHardeningAction, ProtocolHardeningDecision, ProtocolHardeningLimits, ProtocolRejectReason, evaluate_auth_state, evaluate_command_freshness, validate_packet_bounds};
use millions_server::protocol::{PROTOCOL_HEADER_LEN};

fn header_packet(
    message_type: u8,
    connection_id: u64,
    session_id: u64,
    client_seq: u32,
    server_seq: u32,
    ack_seq: u32,
    tick: u64,
    payload: &[u8],
) -> Vec<u8> {
    let mut packet = Vec::new();
    packet.extend_from_slice(&0x4D4Du16.to_le_bytes());
    packet.extend_from_slice(&0u16.to_le_bytes());
    packet.push(message_type);
    packet.push(0);
    packet.extend_from_slice(&48u16.to_le_bytes());
    packet.extend_from_slice(&(payload.len() as u32).to_le_bytes());
    packet.extend_from_slice(&connection_id.to_le_bytes());
    packet.extend_from_slice(&session_id.to_le_bytes());
    packet.extend_from_slice(&client_seq.to_le_bytes());
    packet.extend_from_slice(&server_seq.to_le_bytes());
    packet.extend_from_slice(&ack_seq.to_le_bytes());
    packet.extend_from_slice(&tick.to_le_bytes());
    packet.extend_from_slice(payload);
    packet
}

/// The server hello packet of the protocol fixtures: tick rate 20, 1200 ms heartbeat.
fn server_hello_packet() -> Vec<u8> {
    let mut payload = Vec::new();
    payload.extend_from_slice(&20u16.to_le_bytes());
    payload.extend_from_slice(&0u16.to_le_bytes());
    payload.extend_from_slice(&1200u32.to_le_bytes());
    header_packet(2, 0x1122_3344_5566_7788, 0x0102_0304_0506_0708, 0, 1, 0, 0, &payload)
}

/// The command batch packet of the protocol fixtures: one command, id 42, for tick 10.
fn command_batch_packet() -> Vec<u8> {
    let mut payload = vec![0u8; 24];
    payload[0..2].copy_from_slice(&1u16.to_le_bytes());
    payload[4..12].copy_from_slice(&42u64.to_le_bytes());
    payload[12..14].copy_from_slice(&1u16.to_le_bytes());
    payload[16..24].copy_from_slice(&10u64.to_le_bytes());
    header_packet(3, 0x1122_3344_5566_7788, 0x0102_0304_0506_0708, 1, 0, 1, 10, &payload)
}

fn fixture_packet() -> Vec<u8> {
    server_hello_packet()
}

fn command_fixture_packet() -> Vec<u8> {
    command_batch_packet()
}

fn assert_safe_non_accept(decision: ProtocolHardeningDecision) {
    if decision.action != ProtocolHardeningAction::Accept {
        assert!(!decision.mutate_authoritative_state);
        assert!(decision.redacted_diagnostics_only);
    }
}

#[test]
fn hardening_accepts_fixture_within_bounds() {
    let decision =
        validate_packet_bounds(&fixture_packet(), ProtocolHardeningLimits::default());

    assert_eq!(decision, ProtocolHardeningDecision::accept());
}

#[test]
fn hardening_rejects_version_mismatch_without_state_mutation() {
    let mut packet = fixture_packet();
    packet[2] = 99;

    let decision = validate_packet_bounds(&packet, ProtocolHardeningLimits::default());

    assert_eq!(
        decision,
        ProtocolHardeningDecision::reject(ProtocolRejectReason::VersionMismatch)
    );
    assert_eq!(decision.reason.unwrap().as_str(), "version_mismatch");
    assert!(!decision.mutate_authoritative_state);
}

#[test]
fn hardening_disconnects_oversized_packets_before_decode() {
    let mut packet = fixture_packet();
    packet.resize(MAX_PACKET_BYTES + 1, 0);

    let decision = validate_packet_bounds(&packet, ProtocolHardeningLimits::default());

    assert_eq!(
        decision,
        ProtocolHardeningDecision::disconnect(ProtocolRejectReason::PacketTooLarge)
    );
}

#[test]
fn hardening_rejects_oversized_client_command_batches() {
    let mut packet = command_fixture_packet();
    packet[8..12].copy_from_slice(&(1100u32).to_le_bytes());
    packet.resize(PROTOCOL_HEADER_LEN + 1100, 0);

    let decision = validate_packet_bounds(&packet, ProtocolHardeningLimits::default());

    assert_eq!(
        decision,
        ProtocolHardeningDecision::reject(ProtocolRejectReason::ClientCommandBatchTooLarge)
    );
}

#[test]
fn hardening_maps_auth_failures_to_safe_actions() {
    assert_eq!(
        evaluate_auth_state(AuthCheckState::MissingProof),
        ProtocolHardeningDecision::reject(ProtocolRejectReason::AuthMissing)
    );
    assert_eq!(
        evaluate_auth_state(AuthCheckState::RejectedProof),
        ProtocolHardeningDecision::disconnect(ProtocolRejectReason::AuthRejected)
    );
}

#[test]
fn hardening_acks_stale_or_replayed_commands_without_mutation() {
    for freshness in [CommandFreshness::Stale, CommandFreshness::Replayed] {
        let decision = evaluate_command_freshness(freshness);

        assert_eq!(
            decision.action,
            ProtocolHardeningAction::AckDuplicateNoStateMutation
        );
        assert!(!decision.mutate_authoritative_state);
        assert!(decision.redacted_diagnostics_only);
    }
}

#[test]
fn hardening_rejects_all_truncated_headers_without_panic() {
    let packet = fixture_packet();

    for len in 0..PROTOCOL_HEADER_LEN {
        let decision =
            validate_packet_bounds(&packet[..len], ProtocolHardeningLimits::default());

        assert_eq!(
            decision,
            ProtocolHardeningDecision::reject(ProtocolRejectReason::MalformedHeader),
            "truncated length {len} should reject as malformed_header"
        );
    }
}

#[test]
fn hardening_header_byte_mutations_are_bounded() {
    let packet = fixture_packet();

    for index in 0..PROTOCOL_HEADER_LEN {
        let mut mutated = packet.clone();
        mutated[index] ^= 0xFF;

        let decision = validate_packet_bounds(&mutated, ProtocolHardeningLimits::default());
        assert_safe_non_accept(decision);
    }
}

#[test]
fn hardening_never_allocates_declared_payload_when_lengths_mismatch() {
    let mut packet = fixture_packet();
    packet[8..12].copy_from_slice(&(MAX_PAYLOAD_BYTES as u32 + 1).to_le_bytes());

    let decision = validate_packet_bounds(&packet, ProtocolHardeningLimits::default());

    assert_eq!(
        decision,
        ProtocolHardeningDecision::reject(ProtocolRejectReason::MalformedHeader)
    );
    assert!(!decision.mutate_authoritative_state);
}
