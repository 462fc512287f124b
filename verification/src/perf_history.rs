use vstd::prelude::*;

use crate::map_data::same_text;

verus! {

#[derive(Debug, Clone, Copy, PartialEq, Eq, Structural)]
pub enum PerfHistoryScenarioFamily {
    SimulationScale,
    SwarmCollision,
    SwarmBatchVsSingle,
    GodotRender,
}

impl PerfHistoryScenarioFamily {
    pub open spec fn spec_str(self) -> Seq<char> {
        match self {
            PerfHistoryScenarioFamily::SimulationScale => "simulation_scale"@,
            PerfHistoryScenarioFamily::SwarmCollision => "swarm_collision"@,
            PerfHistoryScenarioFamily::SwarmBatchVsSingle => "swarm_batch_vs_single"@,
            PerfHistoryScenarioFamily::GodotRender => "godot_render"@,
        }
    }

    pub fn as_str(self) -> (r: &'static str)
        ensures
            r@ == self.spec_str(),
    {
        match self {
            PerfHistoryScenarioFamily::SimulationScale => "simulation_scale",
            PerfHistoryScenarioFamily::SwarmCollision => "swarm_collision",
            PerfHistoryScenarioFamily::SwarmBatchVsSingle => "swarm_batch_vs_single",
            PerfHistoryScenarioFamily::GodotRender => "godot_render",
        }
    }
}

#[derive(Debug, Clone, Copy, PartialEq, Eq, Structural)]
pub enum PerfHistoryStatus {
    Pass,
    Fail,
    Blocked,
    Informational,
}

impl PerfHistoryStatus {
    pub open spec fn spec_str(self) -> Seq<char> {
        match self {
            PerfHistoryStatus::Pass => "pass"@,
            PerfHistoryStatus::Fail => "fail"@,
            PerfHistoryStatus::Blocked => "blocked"@,
            PerfHistoryStatus::Informational => "informational"@,
        }
    }

    pub fn as_str(self) -> (r: &'static str)
        ensures
            r@ == self.spec_str(),
    {
        match self {
            PerfHistoryStatus::Pass => "pass",
            PerfHistoryStatus::Fail => "fail",
            PerfHistoryStatus::Blocked => "blocked",
            PerfHistoryStatus::Informational => "informational",
        }
    }
}

#[derive(Debug, Clone, Copy, PartialEq, Eq, Structural)]
pub enum PerfHistoryBudgetResult {
    Pass,
    Fail,
    Blocked,
}

impl PerfHistoryBudgetResult {
    pub open spec fn spec_str(self) -> Seq<char> {
        match self {
            PerfHistoryBudgetResult::Pass => "pass"@,
            PerfHistoryBudgetResult::Fail => "fail"@,
            PerfHistoryBudgetResult::Blocked => "blocked"@,
        }
    }

    pub fn as_str(self) -> (r: &'static str)
        ensures
            r@ == self.spec_str(),
    {
        match self {
            PerfHistoryBudgetResult::Pass => "pass",
            PerfHistoryBudgetResult::Fail => "fail",
            PerfHistoryBudgetResult::Blocked => "blocked",
        }
    }
}

#[derive(Debug, Clone, Copy, PartialEq, Eq, Structural)]
pub enum PerfHistoryClaimScope {
    InformationalContractOnly,
    LocalRegressionSignal,
}

impl PerfHistoryClaimScope {
    pub open spec fn spec_str(self) -> Seq<char> {
        match self {
            PerfHistoryClaimScope::InformationalContractOnly => "informational_contract_only"@,
            PerfHistoryClaimScope::LocalRegressionSignal => "local_regression_signal"@,
        }
    }

    pub fn as_str(self) -> (r: &'static str)
        ensures
            r@ == self.spec_str(),
    {
        match self {
            PerfHistoryClaimScope::InformationalContractOnly => "informational_contract_only",
            PerfHistoryClaimScope::LocalRegressionSignal => "local_regression_signal",
        }
    }
}

#[derive(Debug, Clone, Copy, PartialEq, Eq, Structural)]
pub enum PerfHistoryRedactionStatus {
    Pass,
    Fail,
    Blocked,
}

impl PerfHistoryRedactionStatus {
    pub open spec fn spec_str(self) -> Seq<char> {
        match self {
            PerfHistoryRedactionStatus::Pass => "pass"@,
            PerfHistoryRedactionStatus::Fail => "fail"@,
            PerfHistoryRedactionStatus::Blocked => "blocked"@,
        }
    }

    pub fn as_str(self) -> (r: &'static str)
        ensures
            r@ == self.spec_str(),
    {
        match self {
            PerfHistoryRedactionStatus::Pass => "pass",
            PerfHistoryRedactionStatus::Fail => "fail",
            PerfHistoryRedactionStatus::Blocked => "blocked",
        }
    }
}

#[derive(Debug, Clone, Copy, PartialEq, Eq, Structural)]
pub enum PerfHistoryPromotionDecision {
    Ready,
    Blocked,
}

impl PerfHistoryPromotionDecision {
    pub open spec fn spec_str(self) -> Seq<char> {
        match self {
            PerfHistoryPromotionDecision::Ready => "ready"@,
            PerfHistoryPromotionDecision::Blocked => "blocked"@,
        }
    }

    pub fn as_str(self) -> (r: &'static str)
        ensures
            r@ == self.spec_str(),
    {
        match self {
            PerfHistoryPromotionDecision::Ready => "ready",
            PerfHistoryPromotionDecision::Blocked => "blocked",
        }
    }
}


#[derive(Debug, Clone, Copy, PartialEq, Eq, Structural)]
pub struct SwarmBatchVsSinglePromotionPolicy {
    pub min_rows: usize,
    pub max_batch_to_single_p95_bps: u32,
    pub max_single_elapsed_us_p95: u64,
    pub max_batch_elapsed_us_p95: u64,
}

impl Default for SwarmBatchVsSinglePromotionPolicy {
    /// Three comparable rows, the batch p95 at most 120% of the single p95, and both p95s at
    /// most 20 s.
    fn default() -> (r: Self)
        ensures
            r == (SwarmBatchVsSinglePromotionPolicy {
                min_rows: 3,
                max_batch_to_single_p95_bps: 12_000,
                max_single_elapsed_us_p95: 20_000_000,
                max_batch_elapsed_us_p95: 20_000_000,
            }),
    {
        SwarmBatchVsSinglePromotionPolicy {
            min_rows: 3,
            max_batch_to_single_p95_bps: 12_000,
            max_single_elapsed_us_p95: 20_000_000,
            max_batch_elapsed_us_p95: 20_000_000,
        }
    }
}

#[derive(Debug, Clone, PartialEq, Eq)]
pub struct SwarmBatchVsSinglePromotionAssessment {
    pub row_count: usize,
    pub comparable_row_count: usize,
    pub min_rows_required: usize,
    pub max_batch_to_single_p95_bps: u32,
    pub max_single_elapsed_us_p95: u64,
    pub max_batch_elapsed_us_p95: u64,
    pub observed_batch_to_single_p95_bps_max: Option<u32>,
    pub observed_single_elapsed_us_p95_max: Option<u64>,
    pub observed_batch_elapsed_us_p95_max: Option<u64>,
    pub decision: PerfHistoryPromotionDecision,
    pub budget_result: PerfHistoryBudgetResult,
    pub claim_scope: PerfHistoryClaimScope,
    pub reason: &'static str,
}

/// The scenario id of the batch-versus-single movement loop rows.
pub const SWARM_BATCH_VS_SINGLE_SCENARIO_ID: &'static str = "swarm_batch_vs_single_movement_loop_measurement";

/// Whether a ledger row is a batch-versus-single movement loop row that promotion may count:
/// of that family and scenario, a local regression signal, and redacted.
pub open spec fn batch_vs_single_row_spec(
    family: PerfHistoryScenarioFamily,
    scenario_id: Seq<char>,
    claim_scope: PerfHistoryClaimScope,
    redaction_status: PerfHistoryRedactionStatus,
) -> bool {
    &&& family == PerfHistoryScenarioFamily::SwarmBatchVsSingle
    &&& scenario_id == SWARM_BATCH_VS_SINGLE_SCENARIO_ID@
    &&& claim_scope == PerfHistoryClaimScope::LocalRegressionSignal
    &&& redaction_status == PerfHistoryRedactionStatus::Pass
}

pub fn is_swarm_batch_vs_single_row(
    family: PerfHistoryScenarioFamily,
    scenario_id: &str,
    claim_scope: PerfHistoryClaimScope,
    redaction_status: PerfHistoryRedactionStatus,
) -> (r: bool)
    ensures
        r == batch_vs_single_row_spec(family, scenario_id@, claim_scope, redaction_status),
{
    family == PerfHistoryScenarioFamily::SwarmBatchVsSingle && same_text(scenario_id, SWARM_BATCH_VS_SINGLE_SCENARIO_ID)
        && claim_scope == PerfHistoryClaimScope::LocalRegressionSignal && redaction_status == PerfHistoryRedactionStatus::Pass
}

/// What promotion reads of one ledger row: whether it is a countable row, and its metrics as
/// positive whole numbers where they are present and in range (the ratio from the tick p95,
/// else from the loop counter).
#[derive(Debug, Clone, Copy, PartialEq, Eq, Structural)]
pub struct PromotionRowFacts {
    pub is_batch_vs_single_row: bool,
    pub tick_p95_bps: Option<u32>,
    pub loop_bps: Option<u32>,
    pub single_elapsed_us_p95: Option<u64>,
    pub batch_elapsed_us_p95: Option<u64>,
}

/// The ratio of a row: the tick p95 where it is present, else the loop counter.
pub open spec fn row_bps(f: PromotionRowFacts) -> Option<u32> {
    match f.tick_p95_bps {
        Some(v) => Some(v),
        None => f.loop_bps,
    }
}

/// The three metrics of a comparable row; `None` for a row that is not comparable.
pub open spec fn comparable_values(f: PromotionRowFacts) -> Option<(u32, u64, u64)> {
    if f.is_batch_vs_single_row {
        match (row_bps(f), f.single_elapsed_us_p95, f.batch_elapsed_us_p95) {
            (Some(a), Some(b), Some(c)) => Some((a, b, c)),
            _ => None,
        }
    } else {
        None
    }
}

pub open spec fn comparable_count(rows: Seq<PromotionRowFacts>) -> nat
    decreases rows.len(),
{
    if rows.len() == 0 {
        0
    } else {
        comparable_count(rows.drop_last()) + if comparable_values(rows.last()) is Some { 1nat } else { 0nat }
    }
}

pub open spec fn max_opt_u32(prev: Option<u32>, v: u32) -> Option<u32> {
    match prev {
        Some(p) => Some(if p >= v { p } else { v }),
        None => Some(v),
    }
}

pub open spec fn max_opt_u64(prev: Option<u64>, v: u64) -> Option<u64> {
    match prev {
        Some(p) => Some(if p >= v { p } else { v }),
        None => Some(v),
    }
}

/// The greatest ratio, single p95 and batch p95 over the comparable rows; `None` where no row
/// is comparable.
pub open spec fn observed_maxima(rows: Seq<PromotionRowFacts>) -> (Option<u32>, Option<u64>, Option<u64>)
    decreases rows.len(),
{
    if rows.len() == 0 {
        (None, None, None)
    } else {
        let prev = observed_maxima(rows.drop_last());
        match comparable_values(rows.last()) {
            Some(v) => (max_opt_u32(prev.0, v.0), max_opt_u64(prev.1, v.1), max_opt_u64(prev.2, v.2)),
            None => prev,
        }
    }
}

pub open spec fn exceeds_u32(observed: Option<u32>, limit: u32) -> bool {
    match observed {
        Some(o) => o > limit,
        None => false,
    }
}

pub open spec fn exceeds_u64(observed: Option<u64>, limit: u64) -> bool {
    match observed {
        Some(o) => o > limit,
        None => false,
    }
}

/// The outcome of a promotion request: too few comparable rows block it; then a ratio, single p95 or batch
/// p95 above its limit fails it, in that order; otherwise the batch path is ready.
pub open spec fn promotion_outcome(
    comparable: nat,
    maxima: (Option<u32>, Option<u64>, Option<u64>),
    policy: SwarmBatchVsSinglePromotionPolicy,
) -> (PerfHistoryPromotionDecision, PerfHistoryBudgetResult, Seq<char>) {
    if comparable < policy.min_rows {
        (PerfHistoryPromotionDecision::Blocked, PerfHistoryBudgetResult::Blocked, "insufficient_comparable_rows"@)
    } else if exceeds_u32(maxima.0, policy.max_batch_to_single_p95_bps) {
        (PerfHistoryPromotionDecision::Blocked, PerfHistoryBudgetResult::Fail, "ratio_threshold_exceeded"@)
    } else if exceeds_u64(maxima.1, policy.max_single_elapsed_us_p95) {
        (PerfHistoryPromotionDecision::Blocked, PerfHistoryBudgetResult::Fail, "single_elapsed_threshold_exceeded"@)
    } else if exceeds_u64(maxima.2, policy.max_batch_elapsed_us_p95) {
        (PerfHistoryPromotionDecision::Blocked, PerfHistoryBudgetResult::Fail, "batch_elapsed_threshold_exceeded"@)
    } else {
        (PerfHistoryPromotionDecision::Ready, PerfHistoryBudgetResult::Pass, "enough_comparable_rows_under_local_thresholds"@)
    }
}

fn max_u32_opt(prev: Option<u32>, v: u32) -> (r: Option<u32>)
    ensures
        r == max_opt_u32(prev, v),
{
    match prev {
        Some(p) => Some(if p >= v { p } else { v }),
        None => Some(v),
    }
}

fn max_u64_opt(prev: Option<u64>, v: u64) -> (r: Option<u64>)
    ensures
        r == max_opt_u64(prev, v),
{
    match prev {
        Some(p) => Some(if p >= v { p } else { v }),
        None => Some(v),
    }
}

/// Decides whether the batch movement path may be promoted from the rows of the ledger.
pub fn assess_swarm_batch_vs_single_promotion_facts(
    rows: &Vec<PromotionRowFacts>,
    policy: SwarmBatchVsSinglePromotionPolicy,
) -> (r: SwarmBatchVsSinglePromotionAssessment)
    ensures
        r.row_count == rows@.len(),
        r.comparable_row_count == comparable_count(rows@),
        r.min_rows_required == policy.min_rows,
        r.max_batch_to_single_p95_bps == policy.max_batch_to_single_p95_bps,
        r.max_single_elapsed_us_p95 == policy.max_single_elapsed_us_p95,
        r.max_batch_elapsed_us_p95 == policy.max_batch_elapsed_us_p95,
        (r.observed_batch_to_single_p95_bps_max, r.observed_single_elapsed_us_p95_max, r.observed_batch_elapsed_us_p95_max)
            == observed_maxima(rows@),
        ({
            let v = promotion_outcome(comparable_count(rows@), observed_maxima(rows@), policy);
            &&& r.decision == v.0
            &&& r.budget_result == v.1
            &&& r.reason@ == v.2
        }),
        r.claim_scope == PerfHistoryClaimScope::LocalRegressionSignal,
{
    let mut comparable_row_count: usize = 0;
    let mut bps_max: Option<u32> = None;
    let mut single_max: Option<u64> = None;
    let mut batch_max: Option<u64> = None;
    let mut i: usize = 0;
    while i < rows.len()
        invariant
            i <= rows@.len(),
            comparable_row_count == comparable_count(rows@.take(i as int)),
            comparable_row_count <= i,
            (bps_max, single_max, batch_max) == observed_maxima(rows@.take(i as int)),
        decreases rows@.len() - i,
    {
        let f = rows[i];
        proof {
            assert(rows@.take(i + 1).drop_last() =~= rows@.take(i as int));
            assert(rows@.take(i + 1).last() == f);
        }
        if f.is_batch_vs_single_row {
            let bps = match f.tick_p95_bps {
                Some(v) => Some(v),
                None => f.loop_bps,
            };
            match (bps, f.single_elapsed_us_p95, f.batch_elapsed_us_p95) {
                (Some(a), Some(b), Some(c)) => {
                    comparable_row_count = comparable_row_count + 1;
                    bps_max = max_u32_opt(bps_max, a);
                    single_max = max_u64_opt(single_max, b);
                    batch_max = max_u64_opt(batch_max, c);
                },
                _ => {},
            }
        }
        i += 1;
    }
    proof {
        assert(rows@.take(rows@.len() as int) =~= rows@);
    }
    let exceeds_bps = match bps_max {
        Some(o) => o > policy.max_batch_to_single_p95_bps,
        None => false,
    };
    let exceeds_single = match single_max {
        Some(o) => o > policy.max_single_elapsed_us_p95,
        None => false,
    };
    let exceeds_batch = match batch_max {
        Some(o) => o > policy.max_batch_elapsed_us_p95,
        None => false,
    };
    let (decision, budget_result, reason) = if comparable_row_count < policy.min_rows {
        (PerfHistoryPromotionDecision::Blocked, PerfHistoryBudgetResult::Blocked, "insufficient_comparable_rows")
    } else if exceeds_bps {
        (PerfHistoryPromotionDecision::Blocked, PerfHistoryBudgetResult::Fail, "ratio_threshold_exceeded")
    } else if exceeds_single {
        (PerfHistoryPromotionDecision::Blocked, PerfHistoryBudgetResult::Fail, "single_elapsed_threshold_exceeded")
    } else if exceeds_batch {
        (PerfHistoryPromotionDecision::Blocked, PerfHistoryBudgetResult::Fail, "batch_elapsed_threshold_exceeded")
    } else {
        (PerfHistoryPromotionDecision::Ready, PerfHistoryBudgetResult::Pass, "enough_comparable_rows_under_local_thresholds")
    };
    SwarmBatchVsSinglePromotionAssessment {
        row_count: rows.len(),
        comparable_row_count,
        min_rows_required: policy.min_rows,
        max_batch_to_single_p95_bps: policy.max_batch_to_single_p95_bps,
        max_single_elapsed_us_p95: policy.max_single_elapsed_us_p95,
        max_batch_elapsed_us_p95: policy.max_batch_elapsed_us_p95,
        observed_batch_to_single_p95_bps_max: bps_max,
        observed_single_elapsed_us_p95_max: single_max,
        observed_batch_elapsed_us_p95_max: batch_max,
        decision,
        budget_result,
        claim_scope: PerfHistoryClaimScope::LocalRegressionSignal,
        reason,
    }
}


/// The ledger id of a row: machine, scenario, date and build, joined by double underscores.
pub open spec fn ledger_id_spec(machine_label: Seq<char>, scenario_id: Seq<char>, date: Seq<char>, build_id: Seq<char>) -> Seq<
    char,
> {
    machine_label + seq!['_', '_'] + scenario_id + seq!['_', '_'] + date + seq!['_', '_'] + build_id
}

pub fn build_ledger_id(machine_label: &str, scenario_id: &str, date: &str, build_id: &str) -> (r: String)
    ensures
        r@ == ledger_id_spec(machine_label@, scenario_id@, date@, build_id@),
{
    let mut r = String::from_str(machine_label);
    proof {
        reveal_strlit("__");
    }
    r.append("__");
    r.append(scenario_id);
    r.append("__");
    r.append(date);
    r.append("__");
    r.append(build_id);
    r
}


/// `String::push` appends one character to the string.
pub assume_specification[ String::push ](s: &mut String, ch: char)
    ensures
        final(s)@ == old(s)@.push(ch),
;

/// Whether a character is a control code (the Unicode general category Cc: U+0000 to U+001F
/// and U+007F to U+009F).
pub open spec fn is_control_char(c: char) -> bool {
    c <= '\u{1f}' || ('\u{7f}' <= c && c <= '\u{9f}')
}

/// The lower-case hexadecimal digit of a value below 16.
pub open spec fn hex_digit_char(d: u32) -> char {
    if d < 10 {
        (('0' as u32) + d) as char
    } else {
        (('a' as u32) + d - 10) as char
    }
}

/// How JSON writes one character of a string.
pub open spec fn json_escape_char(c: char) -> Seq<char> {
    if c == '"' {
        seq!['\\', '"']
    } else if c == '\\' {
        seq!['\\', '\\']
    } else if c == '\n' {
        seq!['\\', 'n']
    } else if c == '\r' {
        seq!['\\', 'r']
    } else if c == '\t' {
        seq!['\\', 't']
    } else if is_control_char(c) {
        let v = c as u32;
        seq![
            '\\',
            'u',
            hex_digit_char((v / 4096) % 16),
            hex_digit_char((v / 256) % 16),
            hex_digit_char((v / 16) % 16),
            hex_digit_char(v % 16),
        ]
    } else {
        seq![c]
    }
}

/// The escaped characters of a string, without the quotes.
pub open spec fn json_escaped(s: Seq<char>) -> Seq<char>
    decreases s.len(),
{
    if s.len() == 0 {
        Seq::empty()
    } else {
        json_escaped(s.drop_last()) + json_escape_char(s.last())
    }
}

/// A string as a JSON string literal.
pub open spec fn json_string_spec(s: Seq<char>) -> Seq<char> {
    seq!['"'] + json_escaped(s) + seq!['"']
}

fn hex_digit(d: u32) -> (r: char)
    requires
        d < 16,
    ensures
        r == hex_digit_char(d),
{
    if d < 10 {
        char_from_ascii((48 + d) as u8)
    } else {
        char_from_ascii((87 + d) as u8)
    }
}

fn char_from_ascii(b: u8) -> (r: char)
    requires
        b < 128,
    ensures
        r as u32 == b as u32,
{
    b as char
}

fn push_escaped(out: &mut String, c: char)
    ensures
        final(out)@ == old(out)@ + json_escape_char(c),
{
    let ghost o = out@;
    if c == '"' {
        out.push('\\');
        out.push('"');
    } else if c == '\\' {
        out.push('\\');
        out.push('\\');
    } else if c == '\n' {
        out.push('\\');
        out.push('n');
    } else if c == '\r' {
        out.push('\\');
        out.push('r');
    } else if c == '\t' {
        out.push('\\');
        out.push('t');
    } else if c <= '\u{1f}' || ('\u{7f}' <= c && c <= '\u{9f}') {
        let v = c as u32;
        out.push('\\');
        out.push('u');
        out.push(hex_digit((v / 4096) % 16));
        out.push(hex_digit((v / 256) % 16));
        out.push(hex_digit((v / 16) % 16));
        out.push(hex_digit(v % 16));
    } else {
        out.push(c);
    }
    assert(out@ =~= o + json_escape_char(c));
}

/// A string written as a JSON string literal: in double quotes, with quotes, backslashes and
/// control characters escaped.
pub fn json_string(value: &str) -> (r: String)
    ensures
        r@ == json_string_spec(value@),
{
    let mut escaped = String::new();
    escaped.push('"');
    let n = value.unicode_len();
    let mut i: usize = 0;
    while i < n
        invariant
            n == value@.len(),
            i <= n,
            escaped@ == seq!['"'] + json_escaped(value@.take(i as int)),
        decreases n - i,
    {
        let c = value.get_char(i);
        let ghost before = escaped@;
        push_escaped(&mut escaped, c);
        proof {
            assert(value@.take(i + 1).drop_last() =~= value@.take(i as int));
            assert(value@.take(i + 1).last() == c);
            assert(escaped@ =~= seq!['"'] + json_escaped(value@.take(i + 1)));
        }
        i += 1;
    }
    escaped.push('"');
    proof {
        assert(value@.take(n as int) =~= value@);
    }
    escaped
}


/// JSON string literals of a list of strings, joined by commas.
pub open spec fn json_joined(values: Seq<String>) -> Seq<char>
    decreases values.len(),
{
    if values.len() == 0 {
        Seq::empty()
    } else if values.len() == 1 {
        json_string_spec(values[0]@)
    } else {
        json_joined(values.drop_last()) + seq![','] + json_string_spec(values.last()@)
    }
}

/// A list of strings as a JSON array of string literals.
pub fn json_string_array(values: &Vec<String>) -> (r: String)
    ensures
        r@ == seq!['['] + json_joined(values@) + seq![']'],
{
    let mut out = String::new();
    out.push('[');
    let mut i: usize = 0;
    while i < values.len()
        invariant
            i <= values@.len(),
            out@ == seq!['['] + json_joined(values@.take(i as int)),
        decreases values@.len() - i,
    {
        let encoded = json_string(values[i].as_str());
        proof {
            assert(values@.take(i + 1).drop_last() =~= values@.take(i as int));
            assert(values@.take(i + 1).last() == values@[i as int]);
        }
        if i > 0 {
            out.push(',');
        }
        out.append(encoded.as_str());
        proof {
            if i == 0 {
                assert(values@.take(1) =~= seq![values@[0]]);
            }
            assert(out@ =~= seq!['['] + json_joined(values@.take(i + 1)));
        }
        i += 1;
    }
    out.push(']');
    proof {
        assert(values@.take(values@.len() as int) =~= values@);
    }
    out
}


/// A promotion is ready only with enough comparable rows and every observed maximum within
/// its limit, and then its budget passes.
pub proof fn lemma_promotion_ready_within_policy(
    comparable: nat,
    maxima: (Option<u32>, Option<u64>, Option<u64>),
    policy: SwarmBatchVsSinglePromotionPolicy,
)
    requires
        promotion_outcome(comparable, maxima, policy).0 == PerfHistoryPromotionDecision::Ready,
    ensures
        comparable >= policy.min_rows,
        !exceeds_u32(maxima.0, policy.max_batch_to_single_p95_bps),
        !exceeds_u64(maxima.1, policy.max_single_elapsed_us_p95),
        !exceeds_u64(maxima.2, policy.max_batch_elapsed_us_p95),
        promotion_outcome(comparable, maxima, policy).1 == PerfHistoryBudgetResult::Pass,
{
}

/// The observed maxima bound every comparable row: no comparable row has a ratio or p95
/// above them.
pub proof fn lemma_observed_maxima_bound_rows(rows: Seq<PromotionRowFacts>, k: int)
    requires
        0 <= k < rows.len(),
        comparable_values(rows[k]) is Some,
    ensures
        ({
            let m = observed_maxima(rows);
            let v = comparable_values(rows[k])->Some_0;
            &&& m.0 is Some && v.0 <= m.0->Some_0
            &&& m.1 is Some && v.1 <= m.1->Some_0
            &&& m.2 is Some && v.2 <= m.2->Some_0
        }),
    decreases rows.len(),
{
    let prev = rows.drop_last();
    if k < rows.len() - 1 {
        assert(prev[k] == rows[k]);
        lemma_observed_maxima_bound_rows(prev, k);
    }
}

/// Escaping keeps every quote of a JSON string behind a backslash: the escaped text holds no
/// quote that ends the literal early.
pub proof fn lemma_json_escaped_quotes_follow_backslash(s: Seq<char>, i: int)
    requires
        0 <= i < json_escaped(s).len(),
        json_escaped(s)[i] == '"',
    ensures
        i > 0 && json_escaped(s)[i - 1] == '\\',
    decreases s.len(),
{
    let prev = json_escaped(s.drop_last());
    let tail = json_escape_char(s.last());
    assert(json_escaped(s) == prev + tail);
    if i < prev.len() {
        lemma_json_escaped_quotes_follow_backslash(s.drop_last(), i);
    } else {
        let c = s.last();
        let j = i - prev.len();
        assert(tail[j] == '"');
        if c == '"' {
        } else if c == '\\' || c == '\n' || c == '\r' || c == '\t' {
        } else if is_control_char(c) {
            let v = c as u32;
            assert(j >= 2);
            assert(hex_digit_char((v / 4096) % 16) != '"');
            assert(hex_digit_char((v / 256) % 16) != '"');
            assert(hex_digit_char((v / 16) % 16) != '"');
            assert(hex_digit_char(v % 16) != '"');
        } else {
            assert(tail == seq![c]);
        }
    }
}

} // verus!
