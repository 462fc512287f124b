use vstd::prelude::*;

verus! {

#[derive(Debug, Clone, Copy, PartialEq, Eq, Structural)]
pub enum BudgetResult {
    Pass,
    Fail,
    Blocked,
}

#[derive(Debug, Clone, Copy, PartialEq, Eq, Structural)]
pub enum ServerPerfScenario {
    ServerIdle20Hz,
    Sim1kSingleClient,
    Sim5kSingleClient,
    Sim10kSingleClient,
    ReconnectFullSnapshot1k,
}

/// Combines results: any failure fails, otherwise any blocked result blocks, otherwise pass.
pub open spec fn spec_combine(results: Seq<BudgetResult>) -> BudgetResult {
    if exists|i: int| 0 <= i < results.len() && results[i] == BudgetResult::Fail {
        BudgetResult::Fail
    } else if exists|i: int| 0 <= i < results.len() && results[i] == BudgetResult::Blocked {
        BudgetResult::Blocked
    } else {
        BudgetResult::Pass
    }
}

/// Combines budget results: any failure fails, otherwise any blocked result blocks,
/// otherwise the combination passes.
pub fn combine_results(results: &Vec<BudgetResult>) -> (r: BudgetResult)
    ensures
        r == spec_combine(results@),
{
    let mut saw_blocked = false;
    let n = results.len();
    for i in 0..n
        invariant
            n == results@.len(),
            forall|j: int| 0 <= j < i ==> results@[j] != BudgetResult::Fail,
            saw_blocked == exists|j: int| 0 <= j < i && results@[j] == BudgetResult::Blocked,
    {
        match results[i] {
            BudgetResult::Fail => {
                return BudgetResult::Fail;
            },
            BudgetResult::Blocked => {
                saw_blocked = true;
            },
            BudgetResult::Pass => {},
        }
    }
    if saw_blocked {
        BudgetResult::Blocked
    } else {
        BudgetResult::Pass
    }
}


/// Each budget comparison of a report against the budgets, made where a metric is present:
/// a missing metric blocks, one within its limit passes, one above it fails.
#[derive(Debug, Clone, Copy, PartialEq, Eq, Structural)]
pub struct ServerPerfChecks {
    pub server_tick: BudgetResult,
    pub sim_1k: BudgetResult,
    pub sim_5k: BudgetResult,
    pub sim_10k: BudgetResult,
    pub normal_bandwidth: BudgetResult,
    pub stress_bandwidth: BudgetResult,
    pub reconnect_full_snapshot: BudgetResult,
}

/// The checks a scenario's budget needs: the tick alone when idle; tick, simulation and
/// bandwidth for the simulation scenarios (the 10k one against the stress bandwidth); tick
/// and full-snapshot reconnect for reconnect.
pub open spec fn scenario_checks(scenario: ServerPerfScenario, checks: ServerPerfChecks) -> Seq<BudgetResult> {
    match scenario {
        ServerPerfScenario::ServerIdle20Hz => seq![checks.server_tick],
        ServerPerfScenario::Sim1kSingleClient => seq![checks.server_tick, checks.sim_1k, checks.normal_bandwidth],
        ServerPerfScenario::Sim5kSingleClient => seq![checks.server_tick, checks.sim_5k, checks.normal_bandwidth],
        ServerPerfScenario::Sim10kSingleClient => seq![checks.server_tick, checks.sim_10k, checks.stress_bandwidth],
        ServerPerfScenario::ReconnectFullSnapshot1k => seq![checks.server_tick, checks.reconnect_full_snapshot],
    }
}

/// The budget result of a scenario: its checks combined.
pub fn evaluate_scenario_checks(scenario: ServerPerfScenario, checks: ServerPerfChecks) -> (r: BudgetResult)
    ensures
        r == spec_combine(scenario_checks(scenario, checks)),
{
    let results = match scenario {
        ServerPerfScenario::ServerIdle20Hz => vec![checks.server_tick],
        ServerPerfScenario::Sim1kSingleClient => vec![checks.server_tick, checks.sim_1k, checks.normal_bandwidth],
        ServerPerfScenario::Sim5kSingleClient => vec![checks.server_tick, checks.sim_5k, checks.normal_bandwidth],
        ServerPerfScenario::Sim10kSingleClient => vec![checks.server_tick, checks.sim_10k, checks.stress_bandwidth],
        ServerPerfScenario::ReconnectFullSnapshot1k => vec![checks.server_tick, checks.reconnect_full_snapshot],
    };
    assert(results@ =~= scenario_checks(scenario, checks));
    combine_results(&results)
}

} // verus!
