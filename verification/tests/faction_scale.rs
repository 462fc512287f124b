use millions_server::faction_scale::{faction_scale_scenarios};
use millions_server::perf_budget::{ServerPerfScenario};

#[test]
fn faction_scale_catalog_matches_documented_ids() {
    let ids = faction_scale_scenarios()
        .iter()
        .map(|scenario| scenario.id.as_str())
        .collect::<Vec<_>>();

    assert_eq!(
        ids,
        vec![
            "gload_stage_a_2p_neutral_zombie_1k",
            "gload_stage_b_ai_pressure_2k",
            "gload_stage_c_4plus_mixed_5k",
            "gload_stage_d_10k_aoi_lod",
        ]
    );
}

#[test]
fn faction_scale_role_mixes_sum_to_total_entities() {
    for scenario in faction_scale_scenarios() {
        assert!(
            scenario.is_shape_consistent(),
            "inconsistent faction scale scenario {}",
            scenario.id.as_str()
        );
    }
}

#[test]
fn faction_scale_budget_references_are_conservative() {
    assert_eq!(
        faction_scale_scenarios()[0].budget_reference(),
        ServerPerfScenario::Sim1kSingleClient
    );
    assert_eq!(
        faction_scale_scenarios()[1].budget_reference(),
        ServerPerfScenario::Sim5kSingleClient
    );
    assert_eq!(
        faction_scale_scenarios()[2].budget_reference(),
        ServerPerfScenario::Sim5kSingleClient
    );
    assert_eq!(
        faction_scale_scenarios()[3].budget_reference(),
        ServerPerfScenario::Sim10kSingleClient
    );
}
