use millions_server::load_shed::{ClientLoadSample, CommandAdmission, LoadShedAction, LoadShedLimits, LoadShedReason, SnapshotDegradeMode, apply_slow_client_policy, evaluate_load_shed};

#[test]
fn load_shed_accepts_idle_client() {
    let decision = evaluate_load_shed(ClientLoadSample::idle(), LoadShedLimits::default());

    assert_eq!(decision.action, LoadShedAction::Accept);
    assert!(decision.reasons.is_empty());
    assert!(!decision.is_over_limit());
}

#[test]
fn load_shed_drops_over_rate_commands() {
    let sample = ClientLoadSample {
        commands_per_second: 31,
        ..ClientLoadSample::idle()
    };
    let decision = evaluate_load_shed(sample, LoadShedLimits::default());

    assert_eq!(decision.action, LoadShedAction::DropCommand);
    assert_eq!(decision.reasons, vec![LoadShedReason::CommandRate]);
    assert_eq!(decision.reasons[0].as_str(), "command_rate");
}

#[test]
fn load_shed_degrades_bandwidth_before_disconnect() {
    let sample = ClientLoadSample {
        bandwidth_kb_s: 300,
        reliable_backlog_packets: 65,
        ..ClientLoadSample::idle()
    };
    let decision = evaluate_load_shed(sample, LoadShedLimits::default());

    assert_eq!(decision.action, LoadShedAction::Degrade);
    assert_eq!(decision.reasons, vec![LoadShedReason::Bandwidth]);
}

#[test]
fn load_shed_disconnects_when_resend_window_is_exhausted() {
    let sample = ClientLoadSample {
        oldest_unacked_ticks: 81,
        ..ClientLoadSample::idle()
    };
    let decision = evaluate_load_shed(sample, LoadShedLimits::default());

    assert_eq!(decision.action, LoadShedAction::Disconnect);
    assert_eq!(decision.reasons, vec![LoadShedReason::ResendWindow]);
}

#[test]
fn slow_client_policy_reduces_snapshot_detail_before_disconnect() {
    let sample = ClientLoadSample {
        bandwidth_kb_s: 300,
        reliable_backlog_packets: 64,
        ..ClientLoadSample::idle()
    };
    let policy = apply_slow_client_policy(sample, LoadShedLimits::default());

    assert_eq!(policy.action_name(), "degrade");
    assert_eq!(
        policy.snapshot_mode,
        SnapshotDegradeMode::AggregateFarStateOnly
    );
    assert_eq!(policy.snapshot_mode.as_str(), "aggregate_far_state_only");
    assert_eq!(policy.command_admission, CommandAdmission::Accept);
    assert!(policy.optional_diagnostics_enabled);
    assert!(!policy.disconnect);
}

#[test]
fn slow_client_policy_drops_new_commands_under_command_pressure() {
    let sample = ClientLoadSample {
        commands_per_second: 90,
        log_events_per_minute: 121,
        ..ClientLoadSample::idle()
    };
    let policy = apply_slow_client_policy(sample, LoadShedLimits::default());

    assert_eq!(policy.load_shed.action, LoadShedAction::DropCommand);
    assert_eq!(policy.command_admission, CommandAdmission::DropNewCommands);
    assert_eq!(policy.command_admission.as_str(), "drop_new_commands");
    assert_eq!(policy.snapshot_mode, SnapshotDegradeMode::Normal);
    assert!(!policy.optional_diagnostics_enabled);
    assert!(!policy.disconnect);
}

#[test]
fn slow_client_policy_disconnects_and_requires_full_snapshot_resume() {
    let sample = ClientLoadSample {
        oldest_unacked_ticks: 100,
        reliable_backlog_packets: 257,
        ..ClientLoadSample::idle()
    };
    let policy = apply_slow_client_policy(sample, LoadShedLimits::default());

    assert_eq!(policy.load_shed.action, LoadShedAction::Disconnect);
    assert_eq!(policy.snapshot_mode, SnapshotDegradeMode::FullSnapshotOnly);
    assert_eq!(policy.command_admission, CommandAdmission::DropNewCommands);
    assert!(!policy.optional_diagnostics_enabled);
    assert!(policy.disconnect);
}
