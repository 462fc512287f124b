use vstd::prelude::*;

use crate::perf_budget::ServerPerfScenario;

verus! {

#[derive(Debug, Clone, Copy, PartialEq, Eq, Structural)]
pub enum FactionScaleScenarioId {
    StageA2pNeutralZombie1k,
    StageBAiPressure2k,
    StageC4PlusMixed5k,
    StageD10kAoiLod,
}

impl FactionScaleScenarioId {
    pub fn as_str(self) -> (r: &'static str)
        ensures
            r@ == (match self {
                FactionScaleScenarioId::StageA2pNeutralZombie1k => "gload_stage_a_2p_neutral_zombie_1k"@,
                FactionScaleScenarioId::StageBAiPressure2k => "gload_stage_b_ai_pressure_2k"@,
                FactionScaleScenarioId::StageC4PlusMixed5k => "gload_stage_c_4plus_mixed_5k"@,
                FactionScaleScenarioId::StageD10kAoiLod => "gload_stage_d_10k_aoi_lod"@,
            }),
    {
        match self {
            Self::StageA2pNeutralZombie1k => "gload_stage_a_2p_neutral_zombie_1k",
            Self::StageBAiPressure2k => "gload_stage_b_ai_pressure_2k",
            Self::StageC4PlusMixed5k => "gload_stage_c_4plus_mixed_5k",
            Self::StageD10kAoiLod => "gload_stage_d_10k_aoi_lod",
        }
    }
}

#[derive(Debug, Clone, Copy, PartialEq, Eq, Structural)]
pub struct RoleMixCounts {
    pub basic: usize,
    pub support: usize,
    pub heavy: usize,
    pub siege: usize,
    pub swarm: usize,
    pub neutral_objectives: usize,
    pub synthetic_pressure: usize,
}

pub open spec fn spec_role_total(r: RoleMixCounts) -> int {
    r.basic + r.support + r.heavy + r.siege + r.swarm + r.neutral_objectives + r.synthetic_pressure
}

impl RoleMixCounts {
    pub fn total(self) -> (r: usize)
        requires
            spec_role_total(self) <= usize::MAX,
        ensures
            r == spec_role_total(self),
    {
        self.basic + self.support + self.heavy + self.siege + self.swarm + self.neutral_objectives
            + self.synthetic_pressure
    }
}

#[derive(Debug, Clone, Copy, PartialEq, Eq, Structural)]
pub struct FactionScaleScenario {
    pub id: FactionScaleScenarioId,
    pub total_entity_count: usize,
    pub player_faction_count: u16,
    pub neutral_system_count: usize,
    pub zombie_entity_count: usize,
    pub ai_pressure_group_count: u16,
    pub simulated_extra_faction_count: u16,
    pub visible_entities_per_client: usize,
    pub aggregate_far_state_required: bool,
    pub role_mix: RoleMixCounts,
}

pub open spec fn spec_faction_count(s: FactionScaleScenario) -> int {
    s.player_faction_count + (if s.neutral_system_count > 0 { 1int } else { 0 }) + (if s.zombie_entity_count > 0 {
        1int
    } else {
        0
    }) + s.ai_pressure_group_count + s.simulated_extra_faction_count
}

impl FactionScaleScenario {
    pub fn faction_count(self) -> (r: u16)
        requires
            spec_faction_count(self) <= u16::MAX,
        ensures
            r == spec_faction_count(self),
    {
        self.player_faction_count + (if self.neutral_system_count > 0 { 1u16 } else { 0u16 }) + (if self.zombie_entity_count
            > 0 {
            1u16
        } else {
            0u16
        }) + self.ai_pressure_group_count + self.simulated_extra_faction_count
    }

    pub fn budget_reference(self) -> (r: ServerPerfScenario)
        ensures
            r == (if self.total_entity_count <= 1000 {
                ServerPerfScenario::Sim1kSingleClient
            } else if self.total_entity_count <= 5000 {
                ServerPerfScenario::Sim5kSingleClient
            } else {
                ServerPerfScenario::Sim10kSingleClient
            }),
    {
        if self.total_entity_count <= 1_000 {
            ServerPerfScenario::Sim1kSingleClient
        } else if self.total_entity_count <= 5_000 {
            ServerPerfScenario::Sim5kSingleClient
        } else {
            ServerPerfScenario::Sim10kSingleClient
        }
    }

    pub fn is_shape_consistent(self) -> (r: bool)
        requires
            spec_role_total(self.role_mix) <= usize::MAX,
        ensures
            r == (spec_role_total(self.role_mix) == self.total_entity_count && self.visible_entities_per_client
                <= self.total_entity_count && self.player_faction_count >= 2),
    {
        self.role_mix.total() == self.total_entity_count && self.visible_entities_per_client <= self.total_entity_count
            && self.player_faction_count >= 2
    }
}

/// The documented faction scale stages, smallest first.
pub fn faction_scale_scenarios() -> (r: Vec<FactionScaleScenario>)
    ensures
        r@.len() == 4,
        r@[0].id == FactionScaleScenarioId::StageA2pNeutralZombie1k && r@[0].total_entity_count == 1000,
        r@[1].id == FactionScaleScenarioId::StageBAiPressure2k && r@[1].total_entity_count == 2000,
        r@[2].id == FactionScaleScenarioId::StageC4PlusMixed5k && r@[2].total_entity_count == 5000,
        r@[3].id == FactionScaleScenarioId::StageD10kAoiLod && r@[3].total_entity_count == 10000,
        forall|i: int| 0 <= i < 4 ==> spec_role_total((#[trigger] r@[i]).role_mix) == r@[i].total_entity_count
            && r@[i].visible_entities_per_client <= r@[i].total_entity_count && r@[i].player_faction_count >= 2,
{
    vec![
        FactionScaleScenario {
            id: FactionScaleScenarioId::StageA2pNeutralZombie1k,
            total_entity_count: 1_000,
            player_faction_count: 2,
            neutral_system_count: 8,
            zombie_entity_count: 250,
            ai_pressure_group_count: 0,
            simulated_extra_faction_count: 0,
            visible_entities_per_client: 512,
            aggregate_far_state_required: false,
            role_mix: RoleMixCounts {
                basic: 620,
                support: 80,
                heavy: 32,
                siege: 10,
                swarm: 250,
                neutral_objectives: 8,
                synthetic_pressure: 0,
            },
        },
        FactionScaleScenario {
            id: FactionScaleScenarioId::StageBAiPressure2k,
            total_entity_count: 2_000,
            player_faction_count: 2,
            neutral_system_count: 12,
            zombie_entity_count: 500,
            ai_pressure_group_count: 2,
            simulated_extra_faction_count: 0,
            visible_entities_per_client: 768,
            aggregate_far_state_required: false,
            role_mix: RoleMixCounts {
                basic: 1_050,
                support: 150,
                heavy: 80,
                siege: 30,
                swarm: 500,
                neutral_objectives: 12,
                synthetic_pressure: 178,
            },
        },
        FactionScaleScenario {
            id: FactionScaleScenarioId::StageC4PlusMixed5k,
            total_entity_count: 5_000,
            player_faction_count: 2,
            neutral_system_count: 16,
            zombie_entity_count: 900,
            ai_pressure_group_count: 0,
            simulated_extra_faction_count: 2,
            visible_entities_per_client: 1_024,
            aggregate_far_state_required: true,
            role_mix: RoleMixCounts {
                basic: 2_850,
                support: 450,
                heavy: 240,
                siege: 90,
                swarm: 900,
                neutral_objectives: 16,
                synthetic_pressure: 454,
            },
        },
        FactionScaleScenario {
            id: FactionScaleScenarioId::StageD10kAoiLod,
            total_entity_count: 10_000,
            player_faction_count: 2,
            neutral_system_count: 24,
            zombie_entity_count: 2_500,
            ai_pressure_group_count: 0,
            simulated_extra_faction_count: 4,
            visible_entities_per_client: 1_500,
            aggregate_far_state_required: true,
            role_mix: RoleMixCounts {
                basic: 5_300,
                support: 800,
                heavy: 450,
                siege: 180,
                swarm: 2_500,
                neutral_objectives: 24,
                synthetic_pressure: 746,
            },
        },
    ]
}

} // verus!
