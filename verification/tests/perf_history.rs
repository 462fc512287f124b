use millions_server::perf_budget::{evaluate_scenario_checks, BudgetResult, ServerPerfChecks, ServerPerfScenario};
use millions_server::perf_history::{
    assess_swarm_batch_vs_single_promotion_facts, build_ledger_id, is_swarm_batch_vs_single_row, json_string,
    json_string_array, PerfHistoryBudgetResult, PerfHistoryClaimScope, PerfHistoryPromotionDecision,
    PerfHistoryRedactionStatus, PerfHistoryScenarioFamily, PerfHistoryStatus, PromotionRowFacts,
    SwarmBatchVsSinglePromotionPolicy, SWARM_BATCH_VS_SINGLE_SCENARIO_ID,
};

fn comparable(bps: u32, single: u64, batch: u64) -> PromotionRowFacts {
    PromotionRowFacts {
        is_batch_vs_single_row: true,
        tick_p95_bps: Some(bps),
        loop_bps: Some(bps),
        single_elapsed_us_p95: Some(single),
        batch_elapsed_us_p95: Some(batch),
    }
}

#[test]
fn perf_history_labels_match_ledger_vocabulary() {
    assert_eq!(PerfHistoryScenarioFamily::SimulationScale.as_str(), "simulation_scale");
    assert_eq!(PerfHistoryScenarioFamily::SwarmCollision.as_str(), "swarm_collision");
    assert_eq!(PerfHistoryScenarioFamily::SwarmBatchVsSingle.as_str(), "swarm_batch_vs_single");
    assert_eq!(PerfHistoryScenarioFamily::GodotRender.as_str(), "godot_render");
    assert_eq!(PerfHistoryStatus::Informational.as_str(), "informational");
    assert_eq!(PerfHistoryStatus::Pass.as_str(), "pass");
    assert_eq!(PerfHistoryBudgetResult::Blocked.as_str(), "blocked");
    assert_eq!(PerfHistoryClaimScope::InformationalContractOnly.as_str(), "informational_contract_only");
    assert_eq!(PerfHistoryClaimScope::LocalRegressionSignal.as_str(), "local_regression_signal");
    assert_eq!(PerfHistoryRedactionStatus::Fail.as_str(), "fail");
    assert_eq!(PerfHistoryPromotionDecision::Ready.as_str(), "ready");
    assert_eq!(PerfHistoryPromotionDecision::Blocked.as_str(), "blocked");
}

#[test]
fn perf_history_ledger_id_joins_machine_scenario_date_and_build() {
    assert_eq!(
        build_ledger_id("local-dev-01", "sim_1k_single_client", "2026-07-03", "local-uncommitted"),
        "local-dev-01__sim_1k_single_client__2026-07-03__local-uncommitted"
    );
}

#[test]
fn perf_history_json_string_escapes_quotes_backslashes_and_controls() {
    assert_eq!(json_string("plain"), "\"plain\"");
    assert_eq!(json_string("a\"b\\c"), "\"a\\\"b\\\\c\"");
    assert_eq!(json_string("x\ny\tz\r"), "\"x\\ny\\tz\\r\"");
    assert_eq!(json_string("\u{1}\u{7f}"), "\"\\u0001\\u007f\"");
    assert_eq!(json_string("é"), "\"é\"");
    assert_eq!(json_string(""), "\"\"");
}

#[test]
fn perf_history_json_string_array_joins_literals() {
    assert_eq!(json_string_array(&Vec::new()), "[]");
    assert_eq!(json_string_array(&vec!["a".to_string()]), "[\"a\"]");
    assert_eq!(
        json_string_array(&vec!["server_tick_p99_ms_max".to_string(), "memory \"rule\"".to_string()]),
        "[\"server_tick_p99_ms_max\",\"memory \\\"rule\\\"\"]"
    );
}

#[test]
fn perf_history_batch_row_rule_needs_family_scenario_scope_and_redaction() {
    let ok = is_swarm_batch_vs_single_row(
        PerfHistoryScenarioFamily::SwarmBatchVsSingle,
        SWARM_BATCH_VS_SINGLE_SCENARIO_ID,
        PerfHistoryClaimScope::LocalRegressionSignal,
        PerfHistoryRedactionStatus::Pass,
    );
    assert!(ok);
    assert!(!is_swarm_batch_vs_single_row(
        PerfHistoryScenarioFamily::SwarmCollision,
        SWARM_BATCH_VS_SINGLE_SCENARIO_ID,
        PerfHistoryClaimScope::LocalRegressionSignal,
        PerfHistoryRedactionStatus::Pass,
    ));
    assert!(!is_swarm_batch_vs_single_row(
        PerfHistoryScenarioFamily::SwarmBatchVsSingle,
        "swarm_1k_server_behavior_collision_load",
        PerfHistoryClaimScope::LocalRegressionSignal,
        PerfHistoryRedactionStatus::Pass,
    ));
    assert!(!is_swarm_batch_vs_single_row(
        PerfHistoryScenarioFamily::SwarmBatchVsSingle,
        SWARM_BATCH_VS_SINGLE_SCENARIO_ID,
        PerfHistoryClaimScope::InformationalContractOnly,
        PerfHistoryRedactionStatus::Pass,
    ));
    assert!(!is_swarm_batch_vs_single_row(
        PerfHistoryScenarioFamily::SwarmBatchVsSingle,
        SWARM_BATCH_VS_SINGLE_SCENARIO_ID,
        PerfHistoryClaimScope::LocalRegressionSignal,
        PerfHistoryRedactionStatus::Blocked,
    ));
}

#[test]
fn perf_history_default_promotion_policy() {
    let policy = SwarmBatchVsSinglePromotionPolicy::default();
    assert_eq!(policy.min_rows, 3);
    assert_eq!(policy.max_batch_to_single_p95_bps, 12_000);
    assert_eq!(policy.max_single_elapsed_us_p95, 20_000_000);
    assert_eq!(policy.max_batch_elapsed_us_p95, 20_000_000);
}

#[test]
fn perf_history_promotion_blocks_until_enough_rows() {
    let assessment = assess_swarm_batch_vs_single_promotion_facts(
        &vec![comparable(8_500, 4_200_000, 3_600_000)],
        SwarmBatchVsSinglePromotionPolicy::default(),
    );
    assert_eq!(assessment.row_count, 1);
    assert_eq!(assessment.comparable_row_count, 1);
    assert_eq!(assessment.min_rows_required, 3);
    assert_eq!(assessment.decision, PerfHistoryPromotionDecision::Blocked);
    assert_eq!(assessment.budget_result, PerfHistoryBudgetResult::Blocked);
    assert_eq!(assessment.reason, "insufficient_comparable_rows");
    assert_eq!(assessment.claim_scope, PerfHistoryClaimScope::LocalRegressionSignal);
    assert_eq!(assessment.observed_batch_to_single_p95_bps_max, Some(8_500));
}

#[test]
fn perf_history_promotion_ready_after_three_rows() {
    let rows = vec![
        comparable(8_500, 4_200_000, 3_600_000),
        comparable(8_700, 4_000_000, 3_700_000),
        comparable(9_100, 4_100_000, 3_900_000),
    ];
    let assessment = assess_swarm_batch_vs_single_promotion_facts(&rows, SwarmBatchVsSinglePromotionPolicy::default());
    assert_eq!(assessment.comparable_row_count, 3);
    assert_eq!(assessment.decision, PerfHistoryPromotionDecision::Ready);
    assert_eq!(assessment.budget_result, PerfHistoryBudgetResult::Pass);
    assert_eq!(assessment.reason, "enough_comparable_rows_under_local_thresholds");
    assert_eq!(assessment.observed_batch_to_single_p95_bps_max, Some(9_100));
    assert_eq!(assessment.observed_single_elapsed_us_p95_max, Some(4_200_000));
    assert_eq!(assessment.observed_batch_elapsed_us_p95_max, Some(3_900_000));
}

#[test]
fn perf_history_promotion_blocks_ratio_regression() {
    let rows = vec![
        comparable(8_500, 4_200_000, 3_600_000),
        comparable(12_001, 4_000_000, 4_800_000),
        comparable(9_100, 4_100_000, 3_900_000),
    ];
    let assessment = assess_swarm_batch_vs_single_promotion_facts(&rows, SwarmBatchVsSinglePromotionPolicy::default());
    assert_eq!(assessment.comparable_row_count, 3);
    assert_eq!(assessment.decision, PerfHistoryPromotionDecision::Blocked);
    assert_eq!(assessment.budget_result, PerfHistoryBudgetResult::Fail);
    assert_eq!(assessment.reason, "ratio_threshold_exceeded");
    assert_eq!(assessment.observed_batch_to_single_p95_bps_max, Some(12_001));
}

#[test]
fn perf_history_promotion_fails_on_elapsed_limits_in_order() {
    let policy = SwarmBatchVsSinglePromotionPolicy::default();
    let single_slow = vec![
        comparable(8_500, 20_000_001, 3_600_000),
        comparable(8_700, 4_000_000, 20_000_001),
        comparable(9_100, 4_100_000, 3_900_000),
    ];
    let assessment = assess_swarm_batch_vs_single_promotion_facts(&single_slow, policy);
    assert_eq!(assessment.budget_result, PerfHistoryBudgetResult::Fail);
    assert_eq!(assessment.reason, "single_elapsed_threshold_exceeded");

    let batch_slow = vec![
        comparable(8_500, 4_000_000, 3_600_000),
        comparable(8_700, 4_000_000, 20_000_001),
        comparable(9_100, 4_100_000, 3_900_000),
    ];
    let assessment = assess_swarm_batch_vs_single_promotion_facts(&batch_slow, policy);
    assert_eq!(assessment.budget_result, PerfHistoryBudgetResult::Fail);
    assert_eq!(assessment.reason, "batch_elapsed_threshold_exceeded");
}

#[test]
fn perf_history_promotion_skips_rows_that_are_not_comparable() {
    let mut other_family = comparable(30_000, 4_000_000, 3_000_000);
    other_family.is_batch_vs_single_row = false;
    let missing_single = PromotionRowFacts { single_elapsed_us_p95: None, ..comparable(30_000, 1, 1) };
    let fallback_ratio = PromotionRowFacts { tick_p95_bps: None, loop_bps: Some(9_000), ..comparable(1, 4_000_000, 3_000_000) };
    let no_ratio = PromotionRowFacts { tick_p95_bps: None, loop_bps: None, ..comparable(1, 4_000_000, 3_000_000) };
    let rows = vec![other_family, missing_single, fallback_ratio, no_ratio];
    let assessment = assess_swarm_batch_vs_single_promotion_facts(&rows, SwarmBatchVsSinglePromotionPolicy::default());
    assert_eq!(assessment.row_count, 4);
    assert_eq!(assessment.comparable_row_count, 1);
    assert_eq!(assessment.observed_batch_to_single_p95_bps_max, Some(9_000));
    assert_eq!(assessment.observed_single_elapsed_us_p95_max, Some(4_000_000));
    assert_eq!(assessment.decision, PerfHistoryPromotionDecision::Blocked);

    let empty = assess_swarm_batch_vs_single_promotion_facts(&Vec::new(), SwarmBatchVsSinglePromotionPolicy::default());
    assert_eq!(empty.comparable_row_count, 0);
    assert_eq!(empty.observed_batch_to_single_p95_bps_max, None);
    assert_eq!(empty.reason, "insufficient_comparable_rows");
}

#[test]
fn perf_budget_scenarios_combine_their_checks() {
    let checks = ServerPerfChecks {
        server_tick: BudgetResult::Pass,
        sim_1k: BudgetResult::Pass,
        sim_5k: BudgetResult::Pass,
        sim_10k: BudgetResult::Fail,
        normal_bandwidth: BudgetResult::Pass,
        stress_bandwidth: BudgetResult::Pass,
        reconnect_full_snapshot: BudgetResult::Blocked,
    };
    assert_eq!(evaluate_scenario_checks(ServerPerfScenario::ServerIdle20Hz, checks), BudgetResult::Pass);
    assert_eq!(evaluate_scenario_checks(ServerPerfScenario::Sim1kSingleClient, checks), BudgetResult::Pass);
    assert_eq!(evaluate_scenario_checks(ServerPerfScenario::Sim5kSingleClient, checks), BudgetResult::Pass);
    assert_eq!(evaluate_scenario_checks(ServerPerfScenario::Sim10kSingleClient, checks), BudgetResult::Fail);
    assert_eq!(evaluate_scenario_checks(ServerPerfScenario::ReconnectFullSnapshot1k, checks), BudgetResult::Blocked);
}
