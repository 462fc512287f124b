use millions_server::determinism::{DeterministicInput, DeterministicInputFrame, derive_simulation_seed};
use millions_server::protocol::{PROTOCOL_VERSION};
use millions_server::reliability::{CommandId};
use millions_server::simulation::{PlayerSessionId, Tick};

fn input(session_id: u64, command_id: u64, payload_hash: u64) -> DeterministicInput {
    DeterministicInput {
        tick: Tick(20),
        player_session_id: PlayerSessionId(session_id),
        command_id: CommandId(command_id),
        command_type: 1,
        target_tick: Tick(22),
        payload_hash,
    }
}

#[test]
fn canonical_frame_sorts_inputs_by_session_and_command() {
    let frame = DeterministicInputFrame::canonical(
        Tick(20),
        vec![input(2, 1, 100), input(1, 2, 200), input(1, 1, 300)],
    );

    let order: Vec<(u64, u64)> = frame
        .inputs
        .iter()
        .map(|input| (input.player_session_id.0, input.command_id.0))
        .collect();
    assert_eq!(order, vec![(1, 1), (1, 2), (2, 1)]);
}

#[test]
fn frame_checksum_is_stable_across_input_order() {
    let seed = derive_simulation_seed(7, 99, PROTOCOL_VERSION);
    let first = DeterministicInputFrame::canonical(
        Tick(20),
        vec![input(2, 1, 100), input(1, 2, 200), input(1, 1, 300)],
    );
    let second = DeterministicInputFrame::canonical(
        Tick(20),
        vec![input(1, 1, 300), input(2, 1, 100), input(1, 2, 200)],
    );

    assert_eq!(first.checksum(seed), second.checksum(seed));
}

#[test]
fn frame_checksum_changes_when_payload_hash_changes() {
    let seed = derive_simulation_seed(7, 99, PROTOCOL_VERSION);
    let first = DeterministicInputFrame::canonical(Tick(20), vec![input(1, 1, 300)]);
    let second = DeterministicInputFrame::canonical(Tick(20), vec![input(1, 1, 301)]);

    assert_ne!(first.checksum(seed), second.checksum(seed));
}

#[test]
fn canonical_frame_ignores_inputs_for_other_ticks() {
    let mut other_tick = input(1, 2, 200);
    other_tick.tick = Tick(21);

    let frame =
        DeterministicInputFrame::canonical(Tick(20), vec![input(1, 1, 100), other_tick]);

    assert_eq!(frame.inputs.len(), 1);
    assert_eq!(frame.inputs[0].command_id, CommandId(1));
}
