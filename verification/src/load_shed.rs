use vstd::prelude::*;

verus! {

#[derive(Debug, Clone, Copy, PartialEq, Eq, Structural)]
pub struct LoadShedLimits {
    pub max_commands_per_second: u32,
    pub max_pending_reliable_commands: u32,
    pub max_reliable_backlog_packets: u32,
    pub resend_window_ticks: u64,
    pub max_bandwidth_kb_s_per_client: u32,
    pub max_log_events_per_minute: u32,
    pub slow_client_backlog_packets: u32,
}

impl Default for LoadShedLimits {
    fn default() -> (r: Self)
        ensures
            r == (LoadShedLimits {
                max_commands_per_second: 30,
                max_pending_reliable_commands: 128,
                max_reliable_backlog_packets: 256,
                resend_window_ticks: 40,
                max_bandwidth_kb_s_per_client: 256,
                max_log_events_per_minute: 120,
                slow_client_backlog_packets: 64,
            }),
    {
        Self {
            max_commands_per_second: 30,
            max_pending_reliable_commands: 128,
            max_reliable_backlog_packets: 256,
            resend_window_ticks: 40,
            max_bandwidth_kb_s_per_client: 256,
            max_log_events_per_minute: 120,
            slow_client_backlog_packets: 64,
        }
    }
}

#[derive(Debug, Clone, Copy, PartialEq, Eq, Structural)]
pub struct ClientLoadSample {
    pub commands_per_second: u32,
    pub pending_reliable_commands: u32,
    pub reliable_backlog_packets: u32,
    pub oldest_unacked_ticks: u64,
    pub bandwidth_kb_s: u32,
    pub log_events_per_minute: u32,
}

impl ClientLoadSample {
    pub fn idle() -> (r: Self)
        ensures
            r == (ClientLoadSample {
                commands_per_second: 0,
                pending_reliable_commands: 0,
                reliable_backlog_packets: 0,
                oldest_unacked_ticks: 0,
                bandwidth_kb_s: 0,
                log_events_per_minute: 0,
            }),
    {
        Self {
            commands_per_second: 0,
            pending_reliable_commands: 0,
            reliable_backlog_packets: 0,
            oldest_unacked_ticks: 0,
            bandwidth_kb_s: 0,
            log_events_per_minute: 0,
        }
    }
}

#[derive(Debug, Clone, Copy, PartialEq, Eq, Structural)]
pub enum LoadShedReason {
    CommandRate,
    PendingReliableCommands,
    ReliableBacklog,
    ResendWindow,
    Bandwidth,
    LogVolume,
}

impl LoadShedReason {
    pub fn as_str(self) -> (r: &'static str)
        ensures
            r@ == (match self {
                LoadShedReason::CommandRate => "command_rate"@,
                LoadShedReason::PendingReliableCommands => "pending_reliable_commands"@,
                LoadShedReason::ReliableBacklog => "reliable_backlog"@,
                LoadShedReason::ResendWindow => "resend_window"@,
                LoadShedReason::Bandwidth => "bandwidth"@,
                LoadShedReason::LogVolume => "log_volume"@,
            }),
    {
        match self {
            Self::CommandRate => "command_rate",
            Self::PendingReliableCommands => "pending_reliable_commands",
            Self::ReliableBacklog => "reliable_backlog",
            Self::ResendWindow => "resend_window",
            Self::Bandwidth => "bandwidth",
            Self::LogVolume => "log_volume",
        }
    }
}

#[derive(Debug, Clone, Copy, PartialEq, Eq, Structural)]
pub enum LoadShedAction {
    Accept,
    Degrade,
    DropCommand,
    Disconnect,
}

impl LoadShedAction {
    pub fn as_str(self) -> (r: &'static str)
        ensures
            r@ == (match self {
                LoadShedAction::Accept => "accept"@,
                LoadShedAction::Degrade => "degrade"@,
                LoadShedAction::DropCommand => "drop_command"@,
                LoadShedAction::Disconnect => "disconnect"@,
            }),
    {
        match self {
            Self::Accept => "accept",
            Self::Degrade => "degrade",
            Self::DropCommand => "drop_command",
            Self::Disconnect => "disconnect",
        }
    }
}

#[derive(Debug, Clone, Copy, PartialEq, Eq, Structural)]
pub enum SnapshotDegradeMode {
    Normal,
    ReduceDeltaRate,
    AggregateFarStateOnly,
    FullSnapshotOnly,
}

impl SnapshotDegradeMode {
    pub fn as_str(self) -> (r: &'static str)
        ensures
            r@ == (match self {
                SnapshotDegradeMode::Normal => "normal"@,
                SnapshotDegradeMode::ReduceDeltaRate => "reduce_delta_rate"@,
                SnapshotDegradeMode::AggregateFarStateOnly => "aggregate_far_state_only"@,
                SnapshotDegradeMode::FullSnapshotOnly => "full_snapshot_only"@,
            }),
    {
        match self {
            Self::Normal => "normal",
            Self::ReduceDeltaRate => "reduce_delta_rate",
            Self::AggregateFarStateOnly => "aggregate_far_state_only",
            Self::FullSnapshotOnly => "full_snapshot_only",
        }
    }
}

#[derive(Debug, Clone, Copy, PartialEq, Eq, Structural)]
pub enum CommandAdmission {
    Accept,
    DropNewCommands,
}

impl CommandAdmission {
    pub fn as_str(self) -> (r: &'static str)
        ensures
            r@ == (match self {
                CommandAdmission::Accept => "accept"@,
                CommandAdmission::DropNewCommands => "drop_new_commands"@,
            }),
    {
        match self {
            Self::Accept => "accept",
            Self::DropNewCommands => "drop_new_commands",
        }
    }
}

#[derive(Debug, Clone, PartialEq, Eq)]
pub struct SlowClientPolicyDecision {
    pub load_shed: LoadShedDecision,
    pub snapshot_mode: SnapshotDegradeMode,
    pub command_admission: CommandAdmission,
    pub optional_diagnostics_enabled: bool,
    pub disconnect: bool,
}

impl SlowClientPolicyDecision {
    pub fn action_name(&self) -> (r: &'static str)
        ensures
            r@ == (match self.load_shed.action {
                LoadShedAction::Accept => "accept"@,
                LoadShedAction::Degrade => "degrade"@,
                LoadShedAction::DropCommand => "drop_command"@,
                LoadShedAction::Disconnect => "disconnect"@,
            }),
    {
        self.load_shed.action.as_str()
    }
}

#[derive(Debug, Clone, PartialEq, Eq)]
pub struct LoadShedDecision {
    pub action: LoadShedAction,
    pub reasons: Vec<LoadShedReason>,
}

impl LoadShedDecision {
    pub fn is_over_limit(&self) -> (r: bool)
        ensures
            r == (self.action != LoadShedAction::Accept),
    {
        self.action != LoadShedAction::Accept
    }
}

/// Appends `reason` when `over` holds.
pub open spec fn push_if(s: Seq<LoadShedReason>, over: bool, reason: LoadShedReason) -> Seq<LoadShedReason> {
    if over {
        s.push(reason)
    } else {
        s
    }
}

/// Every limit the sample exceeds, in the fixed order of the limits.
pub open spec fn spec_reasons(sample: ClientLoadSample, limits: LoadShedLimits) -> Seq<LoadShedReason> {
    let s0 = push_if(Seq::empty(), sample.commands_per_second > limits.max_commands_per_second, LoadShedReason::CommandRate);
    let s1 = push_if(s0, sample.pending_reliable_commands > limits.max_pending_reliable_commands, LoadShedReason::PendingReliableCommands);
    let s2 = push_if(s1, sample.reliable_backlog_packets > limits.max_reliable_backlog_packets, LoadShedReason::ReliableBacklog);
    let s3 = push_if(s2, sample.oldest_unacked_ticks > limits.resend_window_ticks, LoadShedReason::ResendWindow);
    let s4 = push_if(s3, sample.bandwidth_kb_s > limits.max_bandwidth_kb_s_per_client, LoadShedReason::Bandwidth);
    push_if(s4, sample.log_events_per_minute > limits.max_log_events_per_minute, LoadShedReason::LogVolume)
}

/// Whether the sample exceeds any limit.
pub open spec fn spec_over_any(sample: ClientLoadSample, limits: LoadShedLimits) -> bool {
    ||| sample.commands_per_second > limits.max_commands_per_second
    ||| sample.pending_reliable_commands > limits.max_pending_reliable_commands
    ||| sample.reliable_backlog_packets > limits.max_reliable_backlog_packets
    ||| sample.oldest_unacked_ticks > limits.resend_window_ticks
    ||| sample.bandwidth_kb_s > limits.max_bandwidth_kb_s_per_client
    ||| sample.log_events_per_minute > limits.max_log_events_per_minute
}

/// The action: accept within all limits; disconnect past twice the resend window (saturating)
/// or past the backlog limit; drop commands on command, pending or log pressure; else degrade.
pub open spec fn spec_action(sample: ClientLoadSample, limits: LoadShedLimits) -> LoadShedAction {
    if !spec_over_any(sample, limits) {
        LoadShedAction::Accept
    } else if sample.oldest_unacked_ticks > (if limits.resend_window_ticks * 2 > u64::MAX {
        u64::MAX as int
    } else {
        limits.resend_window_ticks * 2
    }) || sample.reliable_backlog_packets > limits.max_reliable_backlog_packets {
        LoadShedAction::Disconnect
    } else if sample.commands_per_second > limits.max_commands_per_second
        || sample.pending_reliable_commands > limits.max_pending_reliable_commands
        || sample.log_events_per_minute > limits.max_log_events_per_minute {
        LoadShedAction::DropCommand
    } else {
        LoadShedAction::Degrade
    }
}

pub open spec fn spec_snapshot_mode(sample: ClientLoadSample, limits: LoadShedLimits, action: LoadShedAction) -> SnapshotDegradeMode {
    match action {
        LoadShedAction::Accept => SnapshotDegradeMode::Normal,
        LoadShedAction::DropCommand => SnapshotDegradeMode::Normal,
        LoadShedAction::Disconnect => SnapshotDegradeMode::FullSnapshotOnly,
        LoadShedAction::Degrade => if sample.reliable_backlog_packets >= limits.slow_client_backlog_packets
            || sample.bandwidth_kb_s > limits.max_bandwidth_kb_s_per_client {
            SnapshotDegradeMode::AggregateFarStateOnly
        } else {
            SnapshotDegradeMode::ReduceDeltaRate
        },
    }
}

/// How a load-shedding decision reads its reasons: each reason is present exactly when its
/// limit is exceeded; a client is accepted when no reason holds and disconnected when its
/// oldest unacknowledged packet is past twice the resend window (saturating) or its backlog
/// is past the limit; otherwise commands are dropped exactly when the command rate, the
/// pending reliable commands or the log volume is over its limit, and the client is degraded
/// when only the other limits are exceeded.
pub open spec fn load_shed_reads_reasons(
    sample: ClientLoadSample,
    limits: LoadShedLimits,
    action: LoadShedAction,
    reasons: Seq<LoadShedReason>,
) -> bool {
    let window2: int = if limits.resend_window_ticks * 2 > u64::MAX {
        u64::MAX as int
    } else {
        limits.resend_window_ticks * 2
    };
    let disconnect = sample.oldest_unacked_ticks > window2 || sample.reliable_backlog_packets > limits.max_reliable_backlog_packets;
    let command_pressure = reasons.contains(LoadShedReason::CommandRate) || reasons.contains(
        LoadShedReason::PendingReliableCommands,
    ) || reasons.contains(LoadShedReason::LogVolume);
    &&& (reasons.contains(LoadShedReason::CommandRate) <==> sample.commands_per_second > limits.max_commands_per_second)
    &&& (reasons.contains(LoadShedReason::PendingReliableCommands) <==> sample.pending_reliable_commands
        > limits.max_pending_reliable_commands)
    &&& (reasons.contains(LoadShedReason::ReliableBacklog) <==> sample.reliable_backlog_packets
        > limits.max_reliable_backlog_packets)
    &&& (reasons.contains(LoadShedReason::ResendWindow) <==> sample.oldest_unacked_ticks > limits.resend_window_ticks)
    &&& (reasons.contains(LoadShedReason::Bandwidth) <==> sample.bandwidth_kb_s > limits.max_bandwidth_kb_s_per_client)
    &&& (reasons.contains(LoadShedReason::LogVolume) <==> sample.log_events_per_minute > limits.max_log_events_per_minute)
    &&& (action == LoadShedAction::Accept <==> reasons.len() == 0)
    &&& (action == LoadShedAction::Disconnect <==> disconnect)
    &&& (action == LoadShedAction::DropCommand <==> !disconnect && command_pressure)
    &&& (action == LoadShedAction::Degrade <==> reasons.len() > 0 && !disconnect && !command_pressure)
}

/// The load-shedding decision reads its reasons as `load_shed_reads_reasons` says.
pub proof fn lemma_load_shed_reads_reasons(sample: ClientLoadSample, limits: LoadShedLimits)
    ensures
        load_shed_reads_reasons(sample, limits, spec_action(sample, limits), spec_reasons(sample, limits)),
{
    let r = spec_reasons(sample, limits);
    assert forall|x: LoadShedReason| #[trigger] r.contains(x) <==> (match x {
        LoadShedReason::CommandRate => sample.commands_per_second > limits.max_commands_per_second,
        LoadShedReason::PendingReliableCommands => sample.pending_reliable_commands > limits.max_pending_reliable_commands,
        LoadShedReason::ReliableBacklog => sample.reliable_backlog_packets > limits.max_reliable_backlog_packets,
        LoadShedReason::ResendWindow => sample.oldest_unacked_ticks > limits.resend_window_ticks,
        LoadShedReason::Bandwidth => sample.bandwidth_kb_s > limits.max_bandwidth_kb_s_per_client,
        LoadShedReason::LogVolume => sample.log_events_per_minute > limits.max_log_events_per_minute,
    }) by {
        lemma_reasons_contain(sample, limits, x);
    }
    if r.len() == 0 {
        assert(!spec_over_any(sample, limits)) by {
            if spec_over_any(sample, limits) {
                lemma_reasons_contain(sample, limits, LoadShedReason::CommandRate);
                lemma_reasons_contain(sample, limits, LoadShedReason::PendingReliableCommands);
                lemma_reasons_contain(sample, limits, LoadShedReason::ReliableBacklog);
                lemma_reasons_contain(sample, limits, LoadShedReason::ResendWindow);
                lemma_reasons_contain(sample, limits, LoadShedReason::Bandwidth);
                lemma_reasons_contain(sample, limits, LoadShedReason::LogVolume);
            }
        }
    }
}

/// A reason is listed exactly when its limit is exceeded.
proof fn lemma_reasons_contain(sample: ClientLoadSample, limits: LoadShedLimits, x: LoadShedReason)
    ensures
        spec_reasons(sample, limits).contains(x) <==> (match x {
            LoadShedReason::CommandRate => sample.commands_per_second > limits.max_commands_per_second,
            LoadShedReason::PendingReliableCommands => sample.pending_reliable_commands > limits.max_pending_reliable_commands,
            LoadShedReason::ReliableBacklog => sample.reliable_backlog_packets > limits.max_reliable_backlog_packets,
            LoadShedReason::ResendWindow => sample.oldest_unacked_ticks > limits.resend_window_ticks,
            LoadShedReason::Bandwidth => sample.bandwidth_kb_s > limits.max_bandwidth_kb_s_per_client,
            LoadShedReason::LogVolume => sample.log_events_per_minute > limits.max_log_events_per_minute,
        }),
{
    let s0 = push_if(Seq::empty(), sample.commands_per_second > limits.max_commands_per_second, LoadShedReason::CommandRate);
    let s1 = push_if(s0, sample.pending_reliable_commands > limits.max_pending_reliable_commands, LoadShedReason::PendingReliableCommands);
    let s2 = push_if(s1, sample.reliable_backlog_packets > limits.max_reliable_backlog_packets, LoadShedReason::ReliableBacklog);
    let s3 = push_if(s2, sample.oldest_unacked_ticks > limits.resend_window_ticks, LoadShedReason::ResendWindow);
    let s4 = push_if(s3, sample.bandwidth_kb_s > limits.max_bandwidth_kb_s_per_client, LoadShedReason::Bandwidth);
    let s5 = push_if(s4, sample.log_events_per_minute > limits.max_log_events_per_minute, LoadShedReason::LogVolume);
    lemma_push_if_contains(Seq::empty(), sample.commands_per_second > limits.max_commands_per_second, LoadShedReason::CommandRate, x);
    lemma_push_if_contains(s0, sample.pending_reliable_commands > limits.max_pending_reliable_commands, LoadShedReason::PendingReliableCommands, x);
    lemma_push_if_contains(s1, sample.reliable_backlog_packets > limits.max_reliable_backlog_packets, LoadShedReason::ReliableBacklog, x);
    lemma_push_if_contains(s2, sample.oldest_unacked_ticks > limits.resend_window_ticks, LoadShedReason::ResendWindow, x);
    lemma_push_if_contains(s3, sample.bandwidth_kb_s > limits.max_bandwidth_kb_s_per_client, LoadShedReason::Bandwidth, x);
    lemma_push_if_contains(s4, sample.log_events_per_minute > limits.max_log_events_per_minute, LoadShedReason::LogVolume, x);
}

/// A conditional push holds what it held before, and the pushed reason when the condition holds.
proof fn lemma_push_if_contains(s: Seq<LoadShedReason>, cond: bool, r: LoadShedReason, x: LoadShedReason)
    ensures
        push_if(s, cond, r).contains(x) <==> (s.contains(x) || (cond && x == r)),
{
    if cond {
        let t = s.push(r);
        if s.contains(x) {
            let i = choose|i: int| 0 <= i < s.len() && s[i] == x;
            assert(t[i] == x);
        }
        if t.contains(x) && x != r {
            let i = choose|i: int| 0 <= i < t.len() && t[i] == x;
            assert(s[i] == x);
        }
        assert(t[s.len() as int] == r);
    }
}

pub fn evaluate_load_shed(sample: ClientLoadSample, limits: LoadShedLimits) -> (r: LoadShedDecision)
    ensures
        r.reasons@ == spec_reasons(sample, limits),
        r.action == spec_action(sample, limits),
        load_shed_reads_reasons(sample, limits, r.action, r.reasons@),
{
    proof {
        lemma_load_shed_reads_reasons(sample, limits);
    }
    let mut reasons: Vec<LoadShedReason> = Vec::new();
    if sample.commands_per_second > limits.max_commands_per_second {
        reasons.push(LoadShedReason::CommandRate);
    }
    if sample.pending_reliable_commands > limits.max_pending_reliable_commands {
        reasons.push(LoadShedReason::PendingReliableCommands);
    }
    if sample.reliable_backlog_packets > limits.max_reliable_backlog_packets {
        reasons.push(LoadShedReason::ReliableBacklog);
    }
    if sample.oldest_unacked_ticks > limits.resend_window_ticks {
        reasons.push(LoadShedReason::ResendWindow);
    }
    if sample.bandwidth_kb_s > limits.max_bandwidth_kb_s_per_client {
        reasons.push(LoadShedReason::Bandwidth);
    }
    if sample.log_events_per_minute > limits.max_log_events_per_minute {
        reasons.push(LoadShedReason::LogVolume);
    }
    assert(reasons@ == spec_reasons(sample, limits));
    let action = choose_action(sample, limits, &reasons);
    LoadShedDecision { action, reasons }
}

pub fn apply_slow_client_policy(sample: ClientLoadSample, limits: LoadShedLimits) -> (r: SlowClientPolicyDecision)
    ensures
        r.load_shed.reasons@ == spec_reasons(sample, limits),
        r.load_shed.action == spec_action(sample, limits),
        r.disconnect == (spec_action(sample, limits) == LoadShedAction::Disconnect),
        r.command_admission == (if spec_action(sample, limits) == LoadShedAction::DropCommand
            || spec_action(sample, limits) == LoadShedAction::Disconnect {
            CommandAdmission::DropNewCommands
        } else {
            CommandAdmission::Accept
        }),
        r.snapshot_mode == spec_snapshot_mode(sample, limits, spec_action(sample, limits)),
        r.optional_diagnostics_enabled == (sample.log_events_per_minute <= limits.max_log_events_per_minute
            && spec_action(sample, limits) != LoadShedAction::Disconnect),
        load_shed_reads_reasons(sample, limits, r.load_shed.action, r.load_shed.reasons@),
        r.disconnect <==> r.snapshot_mode == SnapshotDegradeMode::FullSnapshotOnly,
        (r.command_admission == CommandAdmission::DropNewCommands) <==> (r.load_shed.action
            == LoadShedAction::DropCommand || r.load_shed.action == LoadShedAction::Disconnect),
        (r.snapshot_mode == SnapshotDegradeMode::Normal) <==> (r.load_shed.action == LoadShedAction::Accept
            || r.load_shed.action == LoadShedAction::DropCommand),
        (r.snapshot_mode == SnapshotDegradeMode::AggregateFarStateOnly) <==> (r.load_shed.action
            == LoadShedAction::Degrade && (sample.reliable_backlog_packets >= limits.slow_client_backlog_packets
            || sample.bandwidth_kb_s > limits.max_bandwidth_kb_s_per_client)),
        (r.snapshot_mode == SnapshotDegradeMode::ReduceDeltaRate) <==> (r.load_shed.action
            == LoadShedAction::Degrade && sample.reliable_backlog_packets < limits.slow_client_backlog_packets
            && sample.bandwidth_kb_s <= limits.max_bandwidth_kb_s_per_client),
{
    let load_shed = evaluate_load_shed(sample, limits);
    let disconnect = load_shed.action == LoadShedAction::Disconnect;
    let command_admission = if load_shed.action == LoadShedAction::DropCommand || disconnect {
        CommandAdmission::DropNewCommands
    } else {
        CommandAdmission::Accept
    };
    let snapshot_mode = choose_snapshot_mode(sample, limits, load_shed.action);
    let optional_diagnostics_enabled = sample.log_events_per_minute <= limits.max_log_events_per_minute
        && !disconnect;
    SlowClientPolicyDecision { load_shed, snapshot_mode, command_admission, optional_diagnostics_enabled, disconnect }
}

fn choose_action(sample: ClientLoadSample, limits: LoadShedLimits, reasons: &Vec<LoadShedReason>) -> (r: LoadShedAction)
    requires
        reasons@ == spec_reasons(sample, limits),
    ensures
        r == spec_action(sample, limits),
{
    if reasons.len() == 0 {
        return LoadShedAction::Accept;
    }
    let window2: u64 = if limits.resend_window_ticks > u64::MAX / 2 {
        u64::MAX
    } else {
        limits.resend_window_ticks * 2
    };
    if sample.oldest_unacked_ticks > window2
        || sample.reliable_backlog_packets > limits.max_reliable_backlog_packets {
        return LoadShedAction::Disconnect;
    }
    if sample.commands_per_second > limits.max_commands_per_second || sample.pending_reliable_commands
        > limits.max_pending_reliable_commands || sample.log_events_per_minute > limits.max_log_events_per_minute {
        return LoadShedAction::DropCommand;
    }
    LoadShedAction::Degrade
}

fn choose_snapshot_mode(sample: ClientLoadSample, limits: LoadShedLimits, action: LoadShedAction) -> (r: SnapshotDegradeMode)
    ensures
        r == spec_snapshot_mode(sample, limits, action),
{
    match action {
        LoadShedAction::Accept => SnapshotDegradeMode::Normal,
        LoadShedAction::DropCommand => SnapshotDegradeMode::Normal,
        LoadShedAction::Disconnect => SnapshotDegradeMode::FullSnapshotOnly,
        LoadShedAction::Degrade => {
            if sample.reliable_backlog_packets >= limits.slow_client_backlog_packets || sample.bandwidth_kb_s
                > limits.max_bandwidth_kb_s_per_client {
                SnapshotDegradeMode::AggregateFarStateOnly
            } else {
                SnapshotDegradeMode::ReduceDeltaRate
            }
        },
    }
}

/// A client within every limit is accepted with no reasons; a client over any limit is
/// never accepted and has at least one reason.
pub proof fn law_accept_iff_no_reasons(sample: ClientLoadSample, limits: LoadShedLimits)
    ensures
        (spec_action(sample, limits) == LoadShedAction::Accept) <==> spec_reasons(sample, limits).len() == 0,
{
}

} // verus!
