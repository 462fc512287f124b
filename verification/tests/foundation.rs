use millions_server::protocol::{
    synthetic_session_id, MessageType, PacketDecodeError, PacketHeader, PROTOCOL_HEADER_LEN, PROTOCOL_MAGIC,
    PROTOCOL_VERSION,
};
use millions_server::simulation::{
    EntityId, EntityState, MovementDelta, PlayerSessionId, SnapshotBuilder, Tick, TickConfig, TickLoop,
    WorldPosition, SERVER_TICK_HZ, SERVER_TICK_MILLIS,
};
use millions_server::transport;

fn header_packet(
    message_type: u8,
    connection_id: u64,
    session_id: u64,
    client_seq: u32,
    server_seq: u32,
    ack_seq: u32,
    tick: u64,
    payload: &[u8],
) -> Vec<u8> {
    let mut packet = Vec::new();
    packet.extend_from_slice(&0x4D4Du16.to_le_bytes());
    packet.extend_from_slice(&0u16.to_le_bytes());
    packet.push(message_type);
    packet.push(0);
    packet.extend_from_slice(&48u16.to_le_bytes());
    packet.extend_from_slice(&(payload.len() as u32).to_le_bytes());
    packet.extend_from_slice(&connection_id.to_le_bytes());
    packet.extend_from_slice(&session_id.to_le_bytes());
    packet.extend_from_slice(&client_seq.to_le_bytes());
    packet.extend_from_slice(&server_seq.to_le_bytes());
    packet.extend_from_slice(&ack_seq.to_le_bytes());
    packet.extend_from_slice(&tick.to_le_bytes());
    packet.extend_from_slice(payload);
    packet
}

/// The server hello packet of the protocol fixtures: tick rate 20, 1200 ms heartbeat.
fn server_hello_packet() -> Vec<u8> {
    let mut payload = Vec::new();
    payload.extend_from_slice(&20u16.to_le_bytes());
    payload.extend_from_slice(&0u16.to_le_bytes());
    payload.extend_from_slice(&1200u32.to_le_bytes());
    header_packet(2, 0x1122_3344_5566_7788, 0x0102_0304_0506_0708, 0, 1, 0, 0, &payload)
}

/// The command batch packet of the protocol fixtures: one command, id 42, for tick 10.
fn command_batch_packet() -> Vec<u8> {
    let mut payload = vec![0u8; 24];
    payload[0..2].copy_from_slice(&1u16.to_le_bytes());
    payload[4..12].copy_from_slice(&42u64.to_le_bytes());
    payload[12..14].copy_from_slice(&1u16.to_le_bytes());
    payload[16..24].copy_from_slice(&10u64.to_le_bytes());
    header_packet(3, 0x1122_3344_5566_7788, 0x0102_0304_0506_0708, 1, 0, 1, 10, &payload)
}

/// The minimal full snapshot packet of the protocol fixtures: snapshot 100 holding entity 1.
fn full_snapshot_packet() -> Vec<u8> {
    let mut payload = vec![0u8; 60];
    payload[0..8].copy_from_slice(&100u64.to_le_bytes());
    payload[8..16].copy_from_slice(&0u64.to_le_bytes());
    payload[16..20].copy_from_slice(&1u32.to_le_bytes());
    payload[24..32].copy_from_slice(&1u64.to_le_bytes());
    payload[40..44].copy_from_slice(&1000i32.to_le_bytes());
    payload[44..48].copy_from_slice(&(-2000i32).to_le_bytes());
    payload[52..54].copy_from_slice(&256u16.to_le_bytes());
    header_packet(5, 0x1122_3344_5566_7788, 0x0102_0304_0506_0708, 0, 2, 1, 20, &payload)
}

#[test]
fn foundation_constants_match_decisions() {
    assert_eq!(SERVER_TICK_HZ, 20);
    assert_eq!(SERVER_TICK_MILLIS, 50);
    assert_eq!(PROTOCOL_VERSION, 0);
    assert_eq!(PROTOCOL_MAGIC, 0x4D4D);
    assert_eq!(PROTOCOL_HEADER_LEN, 48);
}

#[test]
fn module_boundaries_are_addressable() {
    let connection = transport::ConnectionId(0x1122_3344_5566_7788);
    let session = PlayerSessionId(0x0102_0304_0506_0708);
    let envelope = transport::TransportEnvelope {
        connection_id: connection,
        session_id: Some(session),
        kind: transport::TransportKind::Loopback,
    };

    assert_eq!(envelope.connection_id, connection);
    assert_eq!(envelope.session_id, Some(session));
}

#[test]
fn tick_loop_steps_monotonically_at_foundation_rate() {
    let mut tick_loop = TickLoop::foundation_default();

    assert_eq!(tick_loop.config(), TickConfig::default());
    assert_eq!(tick_loop.current_tick(), Tick(0));
    assert_eq!(tick_loop.step(), Tick(1));
    assert_eq!(tick_loop.step(), Tick(2));
    assert_eq!(tick_loop.step_n(18), Tick(20));
}

#[test]
fn abstract_entity_state_moves_and_builds_full_snapshot() {
    let mut entity = EntityState {
        entity_id: EntityId(1),
        entity_kind: 1,
        faction_id: 1,
        flags: 1,
        position: WorldPosition {
            x_mm: 1000,
            y_mm: -2000,
        },
        facing_millirad: 1571,
        health_q8: 256,
        state_id: 1,
        state_param_q8: 0,
    };

    entity.apply_movement_stub(MovementDelta {
        dx_mm: 250,
        dy_mm: -500,
    });

    let mut builder = SnapshotBuilder::full(100, Tick(20));
    builder.push_entity(entity);
    let snapshot = builder.build();

    assert_eq!(snapshot.snapshot_id, 100);
    assert_eq!(snapshot.baseline_snapshot_id, 0);
    assert_eq!(snapshot.tick, Tick(20));
    assert_eq!(snapshot.entities.len(), 1);
    assert_eq!(snapshot.entities[0].position.x_mm, 1250);
    assert_eq!(snapshot.entities[0].position.y_mm, -2500);
    assert!(snapshot.removed_entities.is_empty());
}

#[test]
fn delta_snapshot_records_removed_entities() {
    let mut builder = SnapshotBuilder::delta(101, 100, Tick(21));
    builder.push_removed(EntityId(9));
    let snapshot = builder.build();

    assert_eq!(snapshot.snapshot_id, 101);
    assert_eq!(snapshot.baseline_snapshot_id, 100);
    assert_eq!(snapshot.tick, Tick(21));
    assert!(snapshot.entities.is_empty());
    assert_eq!(snapshot.removed_entities, vec![EntityId(9)]);
}

#[test]
fn synthetic_identity_handshake_is_stable_and_non_zero() {
    let first = synthetic_session_id("local-abc123:Player 1");
    let second = synthetic_session_id("local-abc123:Player 1");
    let other = synthetic_session_id("local-abc123:Player 2");

    assert_ne!(first, 0);
    assert_eq!(first, second);
    assert_ne!(first, other);
}

#[test]
fn protocol_v0_server_hello_fixture_decodes() {
    let packet = server_hello_packet();
    let header = PacketHeader::decode(&packet).expect("server hello fixture decodes");

    assert_eq!(header.message_type, MessageType::ServerHello);
    assert_eq!(header.payload_len, 8);
    assert_eq!(header.connection_id, 0x1122_3344_5566_7788);
    assert_eq!(header.session_id, 0x0102_0304_0506_0708);
    assert_eq!(header.client_seq, 0);
    assert_eq!(header.server_seq, 1);
    assert_eq!(header.ack_seq, 0);
    assert_eq!(header.tick, 0);
    assert_eq!(
        u16::from_le_bytes([packet[48], packet[49]]),
        SERVER_TICK_HZ as u16
    );
    assert_eq!(u16::from_le_bytes([packet[50], packet[51]]), 0);
    assert_eq!(
        u32::from_le_bytes([packet[52], packet[53], packet[54], packet[55]]),
        1200
    );
}

#[test]
fn protocol_v0_command_ready_fixture_decodes() {
    let packet = command_batch_packet();
    let header = PacketHeader::decode(&packet).expect("command fixture decodes");

    assert_eq!(header.message_type, MessageType::ClientCommandBatch);
    assert_eq!(header.payload_len, 24);
    assert_eq!(header.connection_id, 0x1122_3344_5566_7788);
    assert_eq!(header.session_id, 0x0102_0304_0506_0708);
    assert_eq!(header.client_seq, 1);
    assert_eq!(header.server_seq, 0);
    assert_eq!(header.ack_seq, 1);
    assert_eq!(header.tick, 10);
    assert_eq!(u16::from_le_bytes([packet[48], packet[49]]), 1);
    assert_eq!(u64::from_le_bytes(packet[52..60].try_into().unwrap()), 42);
    assert_eq!(u16::from_le_bytes([packet[60], packet[61]]), 1);
    assert_eq!(u16::from_le_bytes([packet[62], packet[63]]), 0);
    assert_eq!(u64::from_le_bytes(packet[64..72].try_into().unwrap()), 10);
}

#[test]
fn protocol_v0_full_snapshot_fixture_decodes() {
    let packet = full_snapshot_packet();
    let header = PacketHeader::decode(&packet).expect("full snapshot fixture decodes");

    assert_eq!(header.message_type, MessageType::ServerFullSnapshot);
    assert_eq!(header.payload_len, 60);
    assert_eq!(header.connection_id, 0x1122_3344_5566_7788);
    assert_eq!(header.session_id, 0x0102_0304_0506_0708);
    assert_eq!(header.client_seq, 0);
    assert_eq!(header.server_seq, 2);
    assert_eq!(header.ack_seq, 1);
    assert_eq!(header.tick, 20);
    assert_eq!(u64::from_le_bytes(packet[48..56].try_into().unwrap()), 100);
    assert_eq!(u64::from_le_bytes(packet[56..64].try_into().unwrap()), 0);
    assert_eq!(u32::from_le_bytes(packet[64..68].try_into().unwrap()), 1);
    assert_eq!(u64::from_le_bytes(packet[72..80].try_into().unwrap()), 1);
    assert_eq!(i32::from_le_bytes(packet[88..92].try_into().unwrap()), 1000);
    assert_eq!(
        i32::from_le_bytes(packet[92..96].try_into().unwrap()),
        -2000
    );
    assert_eq!(u16::from_le_bytes([packet[100], packet[101]]), 256);
}

#[test]
fn protocol_v0_rejects_bad_magic_before_payload() {
    let mut packet = server_hello_packet();
    packet[0] = 0;

    assert_eq!(
        PacketHeader::decode(&packet),
        Err(PacketDecodeError::BadMagic(0x4D00))
    );
}
