use vstd::prelude::*;

use crate::metrics::{estimate_snapshot_bytes, snapshot_bytes};
use crate::perf_budget::ServerPerfScenario;
use crate::simulation::{
    cell_of, ids_in_cell, lemma_cell_key, lemma_grid_cells_ascending, moved_position, EntityColumns, EntityId,
    EntityState, MovementDelta, SnapshotBuilder, SpatialCell, SpatialGrid, TickLoop, WorldPosition,
};

verus! {

#[derive(Debug, Clone, Copy, PartialEq, Eq, Structural)]
pub enum SimulationScaleScenarioId {
    Sim1kSingleClient,
    Sim5kSingleClient,
    Sim10kSingleClient,
}

impl SimulationScaleScenarioId {
    pub fn as_str(self) -> (r: &'static str)
        ensures
            r@ == (match self {
                SimulationScaleScenarioId::Sim1kSingleClient => "sim_1k_single_client"@,
                SimulationScaleScenarioId::Sim5kSingleClient => "sim_5k_single_client"@,
                SimulationScaleScenarioId::Sim10kSingleClient => "sim_10k_single_client"@,
            }),
    {
        match self {
            Self::Sim1kSingleClient => "sim_1k_single_client",
            Self::Sim5kSingleClient => "sim_5k_single_client",
            Self::Sim10kSingleClient => "sim_10k_single_client",
        }
    }
}

#[derive(Debug, Clone, Copy, PartialEq, Eq, Structural)]
pub struct SimulationScaleScenario {
    pub id: SimulationScaleScenarioId,
    pub entity_count: usize,
    pub tick_count: u64,
    pub cell_size_mm: i32,
    pub world_width_entities: usize,
}

impl SimulationScaleScenario {
    pub fn budget_scenario(self) -> (r: ServerPerfScenario)
        ensures
            r == (match self.id {
                SimulationScaleScenarioId::Sim1kSingleClient => ServerPerfScenario::Sim1kSingleClient,
                SimulationScaleScenarioId::Sim5kSingleClient => ServerPerfScenario::Sim5kSingleClient,
                SimulationScaleScenarioId::Sim10kSingleClient => ServerPerfScenario::Sim10kSingleClient,
            }),
    {
        match self.id {
            SimulationScaleScenarioId::Sim1kSingleClient => ServerPerfScenario::Sim1kSingleClient,
            SimulationScaleScenarioId::Sim5kSingleClient => ServerPerfScenario::Sim5kSingleClient,
            SimulationScaleScenarioId::Sim10kSingleClient => ServerPerfScenario::Sim10kSingleClient,
        }
    }
}

/// The scenario catalogue: 1k, 5k and 10k entities, four ticks each on 2 m cells.
pub open spec fn scale_catalog() -> Seq<SimulationScaleScenario> {
    seq![
        SimulationScaleScenario {
            id: SimulationScaleScenarioId::Sim1kSingleClient,
            entity_count: 1_000,
            tick_count: 4,
            cell_size_mm: 2_000,
            world_width_entities: 50,
        },
        SimulationScaleScenario {
            id: SimulationScaleScenarioId::Sim5kSingleClient,
            entity_count: 5_000,
            tick_count: 4,
            cell_size_mm: 2_000,
            world_width_entities: 100,
        },
        SimulationScaleScenario {
            id: SimulationScaleScenarioId::Sim10kSingleClient,
            entity_count: 10_000,
            tick_count: 4,
            cell_size_mm: 2_000,
            world_width_entities: 100,
        },
    ]
}

pub fn simulation_scale_scenarios() -> (r: Vec<SimulationScaleScenario>)
    ensures
        r@ == scale_catalog(),
{
    let r = vec![
        SimulationScaleScenario {
            id: SimulationScaleScenarioId::Sim1kSingleClient,
            entity_count: 1_000,
            tick_count: 4,
            cell_size_mm: 2_000,
            world_width_entities: 50,
        },
        SimulationScaleScenario {
            id: SimulationScaleScenarioId::Sim5kSingleClient,
            entity_count: 5_000,
            tick_count: 4,
            cell_size_mm: 2_000,
            world_width_entities: 100,
        },
        SimulationScaleScenario {
            id: SimulationScaleScenarioId::Sim10kSingleClient,
            entity_count: 10_000,
            tick_count: 4,
            cell_size_mm: 2_000,
            world_width_entities: 100,
        },
    ];
    assert(r@ =~= scale_catalog());
    r
}

#[derive(Debug, Clone, Copy, PartialEq, Eq, Structural)]
pub struct SimulationScaleRun {
    pub scenario_id: SimulationScaleScenarioId,
    pub entity_count: usize,
    pub tick_count: u64,
    pub final_tick: u64,
    pub occupied_cells: usize,
    pub snapshot_entities: usize,
    pub snapshot_bytes: u64,
}

/// The scenario can run: positive cells and row width, every grid position fits in `i32`
/// millimetres, entity and tick indices add up within `usize`, and the snapshot size fits.
pub open spec fn scale_scenario_fits(s: SimulationScaleScenario) -> bool {
    &&& s.cell_size_mm > 0
    &&& 0 < s.world_width_entities <= 2_147_483
    &&& s.entity_count as int / s.world_width_entities as int <= 2_147_483
    &&& s.entity_count + s.tick_count <= usize::MAX
    &&& snapshot_bytes(s.entity_count as nat, 0) <= u64::MAX
}

/// Entity `index` at the start: laid out row by row, `width` to a row, one metre apart.
pub open spec fn scale_initial_entity(s: SimulationScaleScenario, index: int) -> EntityState {
    let w = s.world_width_entities as int;
    EntityState {
        entity_id: EntityId((index + 1) as u64),
        entity_kind: (index % 8) as u16,
        faction_id: (index % 4) as u16,
        flags: 0,
        position: WorldPosition { x_mm: ((index % w) * 1000) as i32, y_mm: ((index / w) * 1000) as i32 },
        facing_millirad: (index % 6283) as i32,
        health_q8: 256,
        state_id: 0,
        state_param_q8: 0,
    }
}

/// The step of entity `index` on tick `tick`: each axis cycles through -20..20 mm.
pub open spec fn scale_delta(index: int, tick: int) -> MovementDelta {
    MovementDelta {
        dx_mm: (((index + tick) % 5 - 2) * 10) as i32,
        dy_mm: (((index / 5 + tick) % 5 - 2) * 10) as i32,
    }
}

pub open spec fn scale_position(s: SimulationScaleScenario, index: int, ticks: nat) -> WorldPosition
    decreases ticks,
{
    if ticks == 0 {
        scale_initial_entity(s, index).position
    } else {
        moved_position(scale_position(s, index, (ticks - 1) as nat), scale_delta(index, ticks - 1))
    }
}

/// The entities after `ticks` ticks.
pub open spec fn scale_entities(s: SimulationScaleScenario, ticks: nat) -> Seq<EntityState> {
    Seq::new(
        s.entity_count as nat,
        |i: int| EntityState { position: scale_position(s, i, ticks), ..scale_initial_entity(s, i) },
    )
}

/// The cells that some entity's position falls in.
pub open spec fn occupied_cell_set(entities: Seq<EntityState>, cell_size_mm: int) -> Set<SpatialCell> {
    Set::new(|c: SpatialCell| exists|i: int| 0 <= i < entities.len() && cell_of(entities[i].position, cell_size_mm) == c)
}

proof fn lemma_ids_in_cell_nonempty(s: Seq<EntityState>, size: int, c: SpatialCell)
    ensures
        ids_in_cell(s, size, c).len() > 0 <==> exists|i: int| 0 <= i < s.len() && cell_of(s[i].position, size) == c,
    decreases s.len(),
{
    if s.len() > 0 {
        lemma_ids_in_cell_nonempty(s.drop_last(), size, c);
        if exists|i: int| 0 <= i < s.len() && cell_of(s[i].position, size) == c {
            let i = choose|i: int| 0 <= i < s.len() && cell_of(s[i].position, size) == c;
            if i < s.len() - 1 {
                assert(s.drop_last()[i] == s[i]);
            }
        }
        if exists|i: int| 0 <= i < s.len() - 1 && cell_of(s.drop_last()[i].position, size) == c {
            let i = choose|i: int| 0 <= i < s.len() - 1 && cell_of(s.drop_last()[i].position, size) == c;
            assert(s[i] == s.drop_last()[i]);
        }
    }
}

/// The number of cells of a grid rebuilt from `entities` is the number of distinct cells
/// they occupy.
proof fn lemma_grid_cell_count(g: &SpatialGrid, entities: Seq<EntityState>)
    requires
        g.wf(),
        forall|c: SpatialCell| #[trigger] g.members(c) == ids_in_cell(entities, g.spec_cell_size(), c),
    ensures
        g.spec_cells().len() == occupied_cell_set(entities, g.spec_cell_size()).len(),
{
    let cells = g.spec_cells();
    assert forall|i: int, j: int| 0 <= i < cells.len() && 0 <= j < cells.len() && i != j implies cells[i]
        != cells[j] by {
        if i < j {
            lemma_grid_cells_ascending(g, i, j);
        } else {
            lemma_grid_cells_ascending(g, j, i);
        }
    }
    assert(cells.no_duplicates());
    cells.unique_seq_to_set();
    assert forall|c: SpatialCell| cells.to_set().contains(c) <==> occupied_cell_set(entities, g.spec_cell_size()).contains(c) by {
        g.lemma_occupied(c);
        lemma_ids_in_cell_nonempty(entities, g.spec_cell_size(), c);
        assert(g.members(c) == ids_in_cell(entities, g.spec_cell_size(), c));
    }
    assert(cells.to_set() =~= occupied_cell_set(entities, g.spec_cell_size()));
}

fn initial_position(index: usize, width: usize) -> (r: WorldPosition)
    requires
        0 < width <= 2_147_483,
        index / width <= 2_147_483,
    ensures
        r == (WorldPosition {
            x_mm: ((index % width) * 1000) as i32,
            y_mm: ((index / width) * 1000) as i32,
        }),
{
    let x = (index % width) as i32;
    let y = (index / width) as i32;
    WorldPosition { x_mm: x * 1_000, y_mm: y * 1_000 }
}

fn movement_delta_for(entity_index: usize, tick_index: u64) -> (r: MovementDelta)
    requires
        entity_index + tick_index <= usize::MAX,
    ensures
        r == scale_delta(entity_index as int, tick_index as int),
{
    let t = tick_index as usize;
    let lane = ((entity_index + t) % 5) as i32 - 2;
    let band = (((entity_index / 5) + t) % 5) as i32 - 2;
    MovementDelta { dx_mm: lane * 10, dy_mm: band * 10 }
}

fn build_entities(scenario: SimulationScaleScenario) -> (r: EntityColumns)
    requires
        scale_scenario_fits(scenario),
    ensures
        r.wf(),
        r@ == scale_entities(scenario, 0),
{
    let mut entities = EntityColumns::with_capacity(scenario.entity_count);
    let mut index: usize = 0;
    while index < scenario.entity_count
        invariant
            scale_scenario_fits(scenario),
            index <= scenario.entity_count,
            entities.wf(),
            entities@ == scale_entities(scenario, 0).take(index as int),
        decreases scenario.entity_count - index,
    {
        assert(index / scenario.world_width_entities <= scenario.entity_count / scenario.world_width_entities)
            by (nonlinear_arith)
            requires
                index < scenario.entity_count,
                scenario.world_width_entities > 0,
        ;
        entities.push(
            EntityState {
                entity_id: EntityId(index as u64 + 1),
                entity_kind: (index % 8) as u16,
                faction_id: (index % 4) as u16,
                flags: 0,
                position: initial_position(index, scenario.world_width_entities),
                facing_millirad: (index % 6283) as i32,
                health_q8: 256,
                state_id: 0,
                state_param_q8: 0,
            },
        );
        assert(entities@ =~= scale_entities(scenario, 0).take(index + 1));
        index += 1;
    }
    assert(entities@ =~= scale_entities(scenario, 0));
    entities
}

/// Runs a scale scenario: builds the entities, then on each tick moves every entity and
/// rebuilds the grid, and finally measures a full snapshot.
pub fn run_simulation_scale_scenario(scenario: SimulationScaleScenario) -> (r: SimulationScaleRun)
    requires
        scale_scenario_fits(scenario),
    ensures
        r.scenario_id == scenario.id,
        r.entity_count == scenario.entity_count,
        r.tick_count == scenario.tick_count,
        r.final_tick == scenario.tick_count,
        r.occupied_cells == (if scenario.tick_count == 0 {
            0
        } else {
            occupied_cell_set(scale_entities(scenario, scenario.tick_count as nat), scenario.cell_size_mm as int).len()
        }),
        r.snapshot_entities == scenario.entity_count,
        r.snapshot_bytes == snapshot_bytes(scenario.entity_count as nat, 0),
{
    let mut entities = build_entities(scenario);
    let mut grid = SpatialGrid::new(scenario.cell_size_mm);
    let mut tick_loop = TickLoop::foundation_default();
    let mut tick_index: u64 = 0;
    while tick_index < scenario.tick_count
        invariant
            scale_scenario_fits(scenario),
            tick_index <= scenario.tick_count,
            entities.wf(),
            entities@ == scale_entities(scenario, tick_index as nat),
            grid.wf(),
            grid.spec_cell_size() == scenario.cell_size_mm,
            tick_index > 0 ==> forall|c: SpatialCell| #[trigger] grid.members(c) == ids_in_cell(
                entities@,
                scenario.cell_size_mm as int,
                c,
            ),
            tick_index == 0 ==> grid.spec_cells().len() == 0,
            tick_loop.spec_tick() == tick_index,
        decreases scenario.tick_count - tick_index,
    {
        let n = entities.len();
        let mut entity_index: usize = 0;
        while entity_index < n
            invariant
                scale_scenario_fits(scenario),
                tick_index < scenario.tick_count,
                n == scenario.entity_count,
                entity_index <= n,
                entities.wf(),
                entities@ == Seq::new(
                    n as nat,
                    |i: int|
                        EntityState {
                            position: if i < entity_index {
                                scale_position(scenario, i, (tick_index + 1) as nat)
                            } else {
                                scale_position(scenario, i, tick_index as nat)
                            },
                            ..scale_initial_entity(scenario, i)
                        },
                ),
            decreases n - entity_index,
        {
            let delta = movement_delta_for(entity_index, tick_index);
            entities.apply_movement_stub(entity_index, delta);
            assert(entities@ =~= Seq::new(
                n as nat,
                |i: int|
                    EntityState {
                        position: if i < entity_index + 1 {
                            scale_position(scenario, i, (tick_index + 1) as nat)
                        } else {
                            scale_position(scenario, i, tick_index as nat)
                        },
                        ..scale_initial_entity(scenario, i)
                    },
            ));
            entity_index += 1;
        }
        assert(entities@ =~= scale_entities(scenario, (tick_index + 1) as nat));
        grid.rebuild(&entities);
        tick_loop.step();
        tick_index += 1;
    }
    let final_tick = tick_loop.current_tick();
    let mut snapshot_builder = SnapshotBuilder::full(1, final_tick);
    let all = entities.iter_entities();
    let mut i: usize = 0;
    while i < all.len()
        invariant
            i <= all@.len(),
            snapshot_builder.spec_entities() == all@.take(i as int),
            snapshot_builder.spec_removed() == Seq::<EntityId>::empty(),
        decreases all@.len() - i,
    {
        snapshot_builder.push_entity(all[i]);
        assert(all@.take(i + 1) =~= all@.take(i as int).push(all@[i as int]));
        i += 1;
    }
    assert(all@.take(i as int) =~= all@);
    let snapshot = snapshot_builder.build();
    proof {
        if scenario.tick_count > 0 {
            lemma_grid_cell_count(&grid, entities@);
        }
    }
    let occupied_cells = grid.occupied_cell_count();
    SimulationScaleRun {
        scenario_id: scenario.id,
        entity_count: entities.len(),
        tick_count: scenario.tick_count,
        final_tick: final_tick.0,
        occupied_cells,
        snapshot_entities: snapshot.entities.len(),
        snapshot_bytes: estimate_snapshot_bytes(&snapshot),
    }
}

} // verus!
