use millions_server::reliability::{ClientSequenceResult, CommandId, CommandIdempotencyResult, CommandReliabilityState};
use millions_server::simulation::{Tick};

#[test]
fn client_sequences_accept_only_next_monotonic_value() {
    let mut state = CommandReliabilityState::new();

    assert_eq!(
        state.accept_client_seq(1),
        ClientSequenceResult::Accepted { client_seq: 1 }
    );
    assert_eq!(
        state.accept_client_seq(1),
        ClientSequenceResult::DuplicateOrStale {
            last_accepted_client_seq: 1,
        }
    );
    assert_eq!(
        state.accept_client_seq(3),
        ClientSequenceResult::Gap {
            expected_client_seq: 2,
            received_client_seq: 3,
        }
    );
    assert_eq!(
        state.accept_client_seq(2),
        ClientSequenceResult::Accepted { client_seq: 2 }
    );
}

#[test]
fn command_ids_are_idempotent() {
    let mut state = CommandReliabilityState::new();

    assert_eq!(
        state.accept_command_id(CommandId(42)),
        CommandIdempotencyResult::New
    );
    assert_eq!(
        state.accept_command_id(CommandId(42)),
        CommandIdempotencyResult::DuplicateIgnored
    );
    assert_eq!(
        state.accept_command_id(CommandId(43)),
        CommandIdempotencyResult::New
    );
}

#[test]
fn ack_removes_reliable_server_packets() {
    let mut state = CommandReliabilityState::new();
    state.queue_reliable_packet(1, 24, Tick(10));
    state.queue_reliable_packet(2, 32, Tick(11));
    state.queue_reliable_packet(3, 40, Tick(12));

    assert_eq!(state.ack_server_packets_through(2), 2);
    assert_eq!(state.pending_server_packet_count(), 1);
    assert_eq!(state.resend_due(Tick(20), 1)[0].server_seq, 3);
}

#[test]
fn resend_due_and_mark_resent_are_bounded() {
    let mut state = CommandReliabilityState::new();
    state.queue_reliable_packet(7, 24, Tick(10));

    assert!(state.resend_due(Tick(14), 5).is_empty());
    assert_eq!(state.resend_due(Tick(15), 5)[0].server_seq, 7);

    let resent = state.mark_resent(7, Tick(15)).expect("packet exists");
    assert_eq!(resent.resend_count, 1);
    assert!(state.resend_due(Tick(19), 5).is_empty());
    assert_eq!(state.resend_due(Tick(20), 5)[0].resend_count, 1);
}
