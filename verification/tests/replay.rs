use millions_server::determinism::{DeterministicInput, derive_simulation_seed};
use millions_server::protocol::{PROTOCOL_VERSION};
use millions_server::reliability::{CommandId};
use millions_server::replay::{RecordedCommandStream};
use millions_server::simulation::{PlayerSessionId, Tick};

fn input(tick: u64, session_id: u64, command_id: u64, payload_hash: u64) -> DeterministicInput {
    DeterministicInput {
        tick: Tick(tick),
        player_session_id: PlayerSessionId(session_id),
        command_id: CommandId(command_id),
        command_type: 1,
        target_tick: Tick(tick + 1),
        payload_hash,
    }
}

#[test]
fn recorder_groups_inputs_into_canonical_frames() {
    let seed = derive_simulation_seed(1, 2, PROTOCOL_VERSION);
    let mut stream = RecordedCommandStream::new(seed);
    stream.record(input(20, 2, 1, 100));
    stream.record(input(20, 1, 1, 100));
    stream.record(input(21, 1, 2, 200));

    let frames = stream.canonical_frames();

    assert_eq!(frames.len(), 2);
    assert_eq!(frames[0].tick, Tick(20));
    assert_eq!(frames[0].inputs[0].player_session_id, PlayerSessionId(1));
    assert_eq!(frames[1].tick, Tick(21));
}

#[test]
fn replay_report_is_stable_across_record_order() {
    let seed = derive_simulation_seed(1, 2, PROTOCOL_VERSION);
    let mut first = RecordedCommandStream::new(seed);
    first.record(input(20, 2, 1, 100));
    first.record(input(20, 1, 1, 100));

    let mut second = RecordedCommandStream::new(seed);
    second.record(input(20, 1, 1, 100));
    second.record(input(20, 2, 1, 100));

    assert_eq!(first.replay_report(), second.replay_report());
}

#[test]
fn replay_report_identifies_first_divergent_tick() {
    let seed = derive_simulation_seed(1, 2, PROTOCOL_VERSION);
    let mut first = RecordedCommandStream::new(seed);
    first.record(input(20, 1, 1, 100));
    first.record(input(21, 1, 2, 200));

    let mut second = RecordedCommandStream::new(seed);
    second.record(input(20, 1, 1, 100));
    second.record(input(21, 1, 2, 201));

    assert_eq!(
        first
            .replay_report()
            .first_divergent_tick(&second.replay_report()),
        Some(Tick(21))
    );
}
